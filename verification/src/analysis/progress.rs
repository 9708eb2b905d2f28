//! Solving only adds to the graph and to what is found.

use crate::analysis::constraints::{
    CallGraphEdge, ConstraintKind, ConstraintV, LocKind, LocV, ResolutionKind,
};
use crate::analysis::growth::{
    begins_with, grown, grown_refl, grown_trans, has_loaded, holds, listed_holds, may_write,
    merged_grows, push_holds, pushed_grows, same_contents, sound, spread_each_grows, spread_grows,
    store_grows, store_targets,
};
use crate::analysis::models::{model_of, Effect, ModelV};
use crate::analysis::pag::{
    arg_at, list_of, place_kind, with_listed, ExpandV, IndicesV, PagNodeKind, PagV,
    FIELD_LOC_DEPTH_CAP,
};
use crate::analysis::places::{
    ensured_summary_placed, field_placed, placed, placed_same, summary_entry_placed, summary_placed,
    var_entry_placed, with_loc_placed, with_var_placed,
};
use crate::analysis::solver::{fn_arg_at, loc_numbers, node_numbers, LookV, RunV};
use crate::analysis::state::SolverV;
use crate::collections::{has_key, key_position};
use crate::ir::flow::ReturnV;
use crate::ir::ids::{CallSiteId, FieldId, FnId, LocId, PagNodeId, TypeId, VarId};
use crate::ir::program::{returned, ProgramV};
use crate::ir::symbol::{FnV, SiteV, VarV};
use vstd::prelude::*;

verus! {

/// Whether the lists of one map hold what those of another do.
pub open spec fn more_listed<T>(a: Map<u32, Seq<T>>, b: Map<u32, Seq<T>>) -> bool {
    forall|k: u32, t: T| #[trigger] list_of(a, k).contains(t) ==> list_of(b, k).contains(t)
}

/// Whether the entries of one map are in another.
pub open spec fn more_entries<K, V>(a: Map<K, V>, b: Map<K, V>) -> bool {
    forall|k: K| #[trigger] a.contains_key(k) ==> b.contains_key(k) && b[k] == a[k]
}

/// Whether the places of one graph are those of another, with the same places
/// for their fields.
pub open spec fn places_kept(a: PagV, b: PagV) -> bool {
    &&& forall|l: LocId| a.location(l) is Some ==> #[trigger] b.location(l) == a.location(l)
    &&& b.fn_locations == a.fn_locations
    &&& more_entries(a.field_loc, b.field_loc)
    &&& more_entries(a.field_summary, b.field_summary)
}

/// Whether one graph has grown out of another: constraints, calls, places and
/// nodes stay where they are, and what is a function stays one.
pub open spec fn extended(a: PagV, b: PagV) -> bool {
    &&& places_kept(a, b)
    &&& a.locations.len() <= b.locations.len()
    &&& a.nodes.len() <= b.nodes.len()
    &&& placed(a) ==> placed(b)
    &&& more_listed(a.indices.gep_src, b.indices.gep_src)
    &&& more_listed(a.indices.dlsym_src, b.indices.dlsym_src)
    &&& begins_with(b.constraints, a.constraints)
    &&& forall|l: LocId| #[trigger] b.function_at(l) == a.function_at(l)
    &&& more_listed(a.indices.copy_src, b.indices.copy_src)
    &&& more_listed(a.indices.load_src, b.indices.load_src)
    &&& more_listed(a.indices.store_dst, b.indices.store_dst)
    &&& more_listed(a.indices.store_src, b.indices.store_src)
    &&& b.indices.indirect_by_target == a.indices.indirect_by_target
    &&& forall|k: u32|
        a.indices.load_src.contains_key(k) ==> #[trigger] b.indices.load_src.contains_key(k)
    &&& b.ipc_bridges == a.ipc_bridges
    &&& forall|v: VarId|
        a.node_of_var(v) is Some ==> #[trigger] b.node_of_var(v) == a.node_of_var(v)
}

proof fn more_trans<T>(a: Map<u32, Seq<T>>, b: Map<u32, Seq<T>>, c: Map<u32, Seq<T>>)
    requires
        more_listed(a, b),
        more_listed(b, c),
    ensures
        more_listed(a, c),
{
    assert forall|k: u32, t: T| #[trigger] list_of(a, k).contains(t) implies list_of(
        c,
        k,
    ).contains(t) by {
        assert(list_of(b, k).contains(t));
    }
}

pub proof fn extended_refl(a: PagV)
    ensures
        extended(a, a),
{
    assert(a.constraints.take(a.constraints.len() as int) =~= a.constraints);
}

pub proof fn extended_trans(a: PagV, b: PagV, c: PagV)
    requires
        extended(a, b),
        extended(b, c),
    ensures
        extended(a, c),
{
    assert(c.constraints.take(a.constraints.len() as int) =~= b.constraints.take(
        a.constraints.len() as int,
    ));
    assert(places_kept(a, c)) by {
        assert forall|l: LocId| a.location(l) is Some implies #[trigger] c.location(l)
            == a.location(l) by {
            assert(b.location(l) == a.location(l));
        }
    }
    more_trans(a.indices.gep_src, b.indices.gep_src, c.indices.gep_src);
    more_trans(a.indices.dlsym_src, b.indices.dlsym_src, c.indices.dlsym_src);
    more_trans(a.indices.copy_src, b.indices.copy_src, c.indices.copy_src);
    more_trans(a.indices.load_src, b.indices.load_src, c.indices.load_src);
    more_trans(a.indices.store_dst, b.indices.store_dst, c.indices.store_dst);
    more_trans(a.indices.store_src, b.indices.store_src, c.indices.store_src);
    assert forall|l: LocId| #[trigger] c.function_at(l) == a.function_at(l) by {
        assert(b.function_at(l) == a.function_at(l));
    }
    assert forall|k: u32| a.indices.load_src.contains_key(
        k,
    ) implies #[trigger] c.indices.load_src.contains_key(k) by {
        assert(b.indices.load_src.contains_key(k));
    }
    assert forall|v: VarId| a.node_of_var(v) is Some implies #[trigger] c.node_of_var(v)
        == a.node_of_var(v) by {
        assert(b.node_of_var(v) == a.node_of_var(v));
    }
}

/// Two graphs with the same constraints, the same places as far as functions
/// are concerned, and the same indices.
proof fn extended_same(a: PagV, b: PagV)
    requires
        b.constraints == a.constraints,
        b.indices == a.indices,
        b.ipc_bridges == a.ipc_bridges,
        b.var_node == a.var_node,
        places_kept(a, b),
        a.locations.len() <= b.locations.len(),
        a.nodes.len() <= b.nodes.len(),
        placed(a) ==> placed(b),
        forall|l: LocId| #[trigger] b.function_at(l) == a.function_at(l),
    ensures
        extended(a, b),
{
    assert(a.constraints.take(a.constraints.len() as int) =~= a.constraints);
}

proof fn position_stays(entries: Seq<(u32, u32)>, more: (u32, u32), k: u32, i: int)
    requires
        0 <= i <= entries.len(),
        key_position(entries, k, i) < entries.len(),
    ensures
        key_position(entries.push(more), k, i) == key_position(entries, k, i),
        i <= key_position(entries, k, i),
    decreases entries.len() - i,
{
    if i < entries.len() && entries[i].0 != k {
        position_stays(entries, more, k, i + 1);
    }
}

proof fn with_var_extends(a: PagV, v: VarId)
    ensures
        extended(a, a.with_var(v)),
{
    let b = a.with_var(v);
    if placed(a) {
        with_var_placed(a, v);
    }
    assert forall|l: LocId| #[trigger] b.function_at(l) == a.function_at(l) by {
        assert(b.location(l) == a.location(l));
    }
    assert(a.constraints.take(a.constraints.len() as int) =~= a.constraints);
    assert forall|x: VarId| a.node_of_var(x) is Some implies #[trigger] b.node_of_var(x)
        == a.node_of_var(x) by {
        if !has_key(a.var_node, v.0) {
            position_stays(a.var_node, (v.0, a.next_node()), x.0, 0);
        }
    }
}

proof fn with_loc_extends(a: PagV, loc: LocV)
    requires
        loc.kind != LocKind::Function,
        loc.id == a.next_loc(),
    ensures
        extended(a, a.with_loc(loc)),
{
    let b = a.with_loc(loc);
    if placed(a) {
        with_loc_placed(a, loc);
    }
    assert forall|l: LocId| #[trigger] b.function_at(l) == a.function_at(l) by {
        if l.0 < a.locations.len() {
            assert(b.locations[l.0 as int] == a.locations[l.0 as int]);
        } else if l.0 == a.locations.len() {
            assert(b.locations[l.0 as int] == loc);
        }
    }
    extended_same(a, b);
}

proof fn with_constraint_extends(a: PagV, kind: ConstraintKind, dst: PagNodeId, src: PagNodeId)
    ensures
        extended(a, a.with_constraint(kind, dst, src)),
{
    let b = a.with_constraint(kind, dst, src);
    if placed(a) {
        placed_same(a, b);
    }
    assert(b.constraints.take(a.constraints.len() as int) =~= a.constraints);
    assert forall|l: LocId| #[trigger] b.function_at(l) == a.function_at(l) by {
        assert(b.location(l) == a.location(l));
    }
}

proof fn with_addr_of_extends(a: PagV, dst: PagNodeId, l: LocId)
    ensures
        extended(a, a.with_addr_of(dst, l)),
{
    extended_refl(a);
    match a.node_of_loc(l) {
        Some(n) => {
            with_constraint_extends(a, ConstraintKind::AddrOf, dst, n);
        },
        None => {},
    }
}

proof fn with_place_extends(a: PagV, v: VarV)
    ensures
        extended(a, a.with_place(v)),
{
    let loc = LocV {
        id: a.next_loc(),
        kind: place_kind(v.storage),
        var: Some(v.id),
        fn_id: v.fn_id,
        field: None,
        type_id: v.type_id,
        desc: v.name,
    };
    with_loc_extends(a, loc);
    let q = a.with_loc(loc);
    let b = a.with_place(v);
    if placed(q) {
        var_entry_placed(q, v.id.0, loc.id.0);
    }
    assert forall|l: LocId| #[trigger] b.function_at(l) == q.function_at(l) by {
        assert(b.location(l) == q.location(l));
    }
    extended_same(q, b);
    extended_trans(a, q, b);
}

pub proof fn ensured_var_loc_extends(a: PagV, p: ProgramV, v: VarId)
    ensures
        extended(a, a.ensured_var_loc(p, v).0),
{
    extended_refl(a);
    match a.location_of_var(v) {
        Some(l) => {},
        None => {
            match p.symbols.variable(v) {
                Some(x) => {
                    with_place_extends(a, x);
                },
                None => {},
            }
        },
    }
}

pub proof fn with_return_model_extends(
    a: PagV,
    dst: PagNodeId,
    model: ModelV,
    params: Option<Seq<VarId>>,
    n: int,
)
    ensures
        extended(a, a.with_return_model(dst, model, params, n)),
    decreases n,
{
    if n <= 0 {
        extended_refl(a);
    } else {
        with_return_model_extends(a, dst, model, params, n - 1);
        let q = a.with_return_model(dst, model, params, n - 1);
        let b = a.with_return_model(dst, model, params, n);
        extended_refl(q);
        match model.effects[n - 1] {
            Effect::ReturnAlias { param } => {
                match params {
                    Some(ps) => {
                        if param < ps.len() {
                            let formal = ps[param as int];
                            with_var_extends(q, formal);
                            let q1 = q.with_var(formal);
                            with_constraint_extends(
                                q1,
                                ConstraintKind::Copy,
                                dst,
                                q.var_node_after(formal),
                            );
                            extended_trans(q, q1, b);
                        }
                    },
                    None => {},
                }
            },
            Effect::ReturnHeap => {
                let loc = LocV {
                    id: q.next_loc(),
                    kind: LocKind::Heap,
                    var: None,
                    fn_id: None,
                    field: None,
                    type_id: TypeId(0),
                    desc: model.name + "() storage"@,
                };
                with_loc_extends(q, loc);
                let q1 = q.with_heap(TypeId(0), model.name + "() storage"@);
                with_addr_of_extends(q1, dst, q.next_loc());
                extended_trans(q, q1, b);
            },
            _ => {},
        }
        extended_trans(a, q, b);
    }
}

proof fn expand_extends(
    e: ExpandV,
    p: ProgramV,
    models: Seq<ModelV>,
    dst: PagNodeId,
    callee: FnId,
    fuel: nat,
)
    ensures
        extended(e.pag, e.expand(p, models, dst, callee, fuel).pag),
    decreases fuel, 0int, 0int,
{
    extended_refl(e.pag);
    if fuel == 0 || e.visited.contains(callee.0) {
    } else {
        let entered = ExpandV { visited: e.visited.insert(callee.0), applied: false, ..e };
        match returned(p.fn_returns, callee.0, 0) {
            Some(flows) => {
                flows_extend(entered, p, models, dst, callee, flows, 0, (fuel - 1) as nat);
            },
            None => {},
        }
    }
}

proof fn flows_extend(
    e: ExpandV,
    p: ProgramV,
    models: Seq<ModelV>,
    dst: PagNodeId,
    callee: FnId,
    flows: Seq<ReturnV>,
    i: int,
    fuel: nat,
)
    ensures
        extended(e.pag, e.flows(p, models, dst, callee, flows, i, fuel).pag),
    decreases fuel, 2int, flows.len() - i,
{
    extended_refl(e.pag);
    if i < 0 || i >= flows.len() {
    } else {
        let next = match flows[i] {
            ReturnV::AddrOfVar { src } => {
                let (q, l) = e.pag.ensured_var_loc(p, src);
                ensured_var_loc_extends(e.pag, p, src);
                match l {
                    Some(loc) => {
                        with_addr_of_extends(q, dst, loc);
                        extended_trans(e.pag, q, q.with_addr_of(dst, loc));
                        ExpandV { pag: q.with_addr_of(dst, loc), applied: true, ..e }
                    },
                    None => e,
                }
            },
            ReturnV::AddrOfFn { callee: f } => match e.pag.fn_location(f) {
                Some(loc) => {
                    with_addr_of_extends(e.pag, dst, loc);
                    ExpandV { pag: e.pag.with_addr_of(dst, loc), applied: true, ..e }
                },
                None => e,
            },
            ReturnV::Copy { src } => {
                with_var_extends(e.pag, src);
                let q = e.pag.with_var(src);
                let c = q.with_constraint(ConstraintKind::Copy, dst, e.pag.var_node_after(src));
                with_constraint_extends(q, ConstraintKind::Copy, dst, e.pag.var_node_after(src));
                extended_trans(e.pag, q, c);
                ExpandV { pag: c, applied: true, ..e }
            },
            ReturnV::Call { callee_name } => match p.symbols.function(callee) {
                Some(f) => {
                    let inner = p.symbols.candidates(callee_name, Some(f.file));
                    let start = ExpandV { applied: false, ..e };
                    let after = start.inner(p, models, dst, inner, 0, fuel);
                    inner_extends(start, p, models, dst, inner, 0, fuel);
                    let modeled = after.or_model(p, models, dst, callee_name, inner);
                    extended_refl(after.pag);
                    match model_of(models, callee_name, 0) {
                        Some(m) => {
                            with_return_model_extends(
                                after.pag,
                                dst,
                                m,
                                p.first_params(inner, 0),
                                m.effects.len() as int,
                            );
                        },
                        None => {},
                    }
                    extended_trans(e.pag, after.pag, modeled.pag);
                    ExpandV { applied: e.applied || modeled.applied, ..modeled }
                },
                None => e,
            },
        };
        flows_extend(next, p, models, dst, callee, flows, i + 1, fuel);
        extended_trans(
            e.pag,
            next.pag,
            next.flows(p, models, dst, callee, flows, i + 1, fuel).pag,
        );
    }
}

pub proof fn inner_extends(
    e: ExpandV,
    p: ProgramV,
    models: Seq<ModelV>,
    dst: PagNodeId,
    inner: Seq<FnId>,
    j: int,
    fuel: nat,
)
    ensures
        extended(e.pag, e.inner(p, models, dst, inner, j, fuel).pag),
    decreases fuel, 1int, inner.len() - j,
{
    extended_refl(e.pag);
    if j < 0 || j >= inner.len() {
    } else {
        let one = e.expand(p, models, dst, inner[j], fuel);
        expand_extends(e, p, models, dst, inner[j], fuel);
        let next = ExpandV { applied: e.applied || one.applied, ..one };
        inner_extends(next, p, models, dst, inner, j + 1, fuel);
        extended_trans(e.pag, next.pag, next.inner(p, models, dst, inner, j + 1, fuel).pag);
    }
}

proof fn with_indices_extends(a: PagV, from: int, to: int)
    ensures
        extended(a, a.with_indices(from, to)),
        a.with_indices(from, to).constraints == a.constraints,
    decreases to - from,
{
    if to <= from {
        extended_refl(a);
    } else {
        with_indices_extends(a, from, to - 1);
        let q = a.with_indices(from, to - 1);
        let b = a.with_indices(from, to);
        let c = a.constraints[to - 1];
        let i = (to - 1) as usize;
        listed_holds(q.indices.copy_src, c.src.0, i);
        listed_holds(q.indices.load_src, c.src.0, i);
        listed_holds(q.indices.store_dst, c.dst.0, i);
        listed_holds(q.indices.store_src, c.src.0, i);
        listed_holds(q.indices.gep_src, c.src.0, i);
        listed_holds(q.indices.dlsym_src, c.src.0, i);
        assert(q.constraints.take(q.constraints.len() as int) =~= q.constraints);
        assert forall|l: LocId| #[trigger] b.function_at(l) == q.function_at(l) by {
            assert(b.location(l) == q.location(l));
        }
        if placed(q) {
            placed_same(q, b);
        }
        assert(extended(q, b));
        extended_trans(a, q, b);
    }
}

proof fn ensured_summary_extends(
    a: PagV,
    p: ProgramV,
    owner: TypeId,
    field: FieldId,
    field_type: TypeId,
    name: Seq<char>,
)
    ensures
        extended(a, a.ensured_summary(p, owner, field, field_type, name).0),
{
    extended_refl(a);
    if !a.field_summary.contains_key((owner.0, field.0)) {
        let loc = LocV {
            id: a.next_loc(),
            kind: LocKind::FieldSummary,
            var: None,
            fn_id: None,
            field: Some(field),
            type_id: field_type,
            desc: "summary:"@ + p.owner_name(owner) + ("."@ + name),
        };
        with_loc_extends(a, loc);
        let q = a.with_loc(loc);
        let b = a.ensured_summary(p, owner, field, field_type, name).0;
        if placed(q) {
            summary_placed(q, (owner.0, field.0), loc.id.0);
        }
        assert forall|l: LocId| #[trigger] b.function_at(l) == q.function_at(l) by {
            assert(b.location(l) == q.location(l));
        }
        extended_same(q, b);
        extended_trans(a, q, b);
    }
}

proof fn with_field_extends(
    a: PagV,
    parent: LocId,
    field: FieldId,
    field_type: TypeId,
    name: Seq<char>,
)
    requires
        !a.field_loc.contains_key((parent.0, field.0)),
    ensures
        extended(a, a.with_field(parent, field, field_type, name)),
{
    let loc = LocV {
        id: a.next_loc(),
        kind: LocKind::Field,
        var: a.locations[parent.0 as int].var,
        fn_id: None,
        field: Some(field),
        type_id: field_type,
        desc: name,
    };
    with_loc_extends(a, loc);
    let q = a.with_loc(loc);
    let b = a.with_field(parent, field, field_type, name);
    if placed(q) {
        field_placed(q, (parent.0, field.0), loc.id.0, b.field_depth);
    }
    assert forall|l: LocId| #[trigger] b.function_at(l) == q.function_at(l) by {
        assert(b.location(l) == q.location(l));
    }
    extended_same(q, b);
    extended_trans(a, q, b);
}

proof fn ensured_field_extends(a: PagV, p: ProgramV, parent: LocId, field: FieldId)
    ensures
        extended(a, a.ensured_field(p, parent, field).0),
{
    extended_refl(a);
    if !a.field_loc.contains_key((parent.0, field.0)) {
        match a.object_type(p, parent) {
            Some(owner) => {
                match p.types.field(owner, field) {
                    Some(fl) => {
                        if a.depth(parent) >= FIELD_LOC_DEPTH_CAP {
                            ensured_summary_extends(a, p, owner, field, fl.type_id, fl.name);
                        } else {
                            let q1 = a.with_field(parent, field, fl.type_id, fl.name);
                            with_field_extends(a, parent, field, fl.type_id, fl.name);
                            ensured_summary_extends(q1, p, owner, field, fl.type_id, fl.name);
                            let (q, s) = q1.ensured_summary(p, owner, field, fl.type_id, fl.name);
                            let b = a.ensured_field(p, parent, field).0;
                            if placed(q) {
                                ensured_summary_placed(
                                    q,
                                    p,
                                    owner,
                                    field,
                                    fl.type_id,
                                    fl.name,
                                );
                                summary_entry_placed(q, a.next_loc().0, s.0);
                            }
                            assert forall|l: LocId| #[trigger]
                                b.function_at(l) == q.function_at(l) by {
                                assert(b.location(l) == q.location(l));
                            }
                            extended_same(q, b);
                            extended_trans(a, q1, q);
                            extended_trans(a, q, b);
                        }
                    },
                    None => {},
                }
            },
            None => {},
        }
    }
}

proof fn ensured_var_summary_extends(a: PagV, p: ProgramV, v: VarId, field: FieldId)
    ensures
        extended(a, a.ensured_var_summary(p, v, field).0),
{
    extended_refl(a);
    match p.symbols.variable(v) {
        Some(x) => {
            match p.aggregate_behind(x.type_id, 6) {
                Some(owner) => {
                    match p.types.field(owner, field) {
                        Some(fl) => {
                            ensured_summary_extends(a, p, owner, field, fl.type_id, fl.name);
                        },
                        None => {},
                    }
                },
                None => {},
            }
        },
        None => {},
    }
}

/// An edge through a pointer.
pub open spec fn indirect_edge(site: u32, caller: FnId, callee: FnId) -> CallGraphEdge {
    CallGraphEdge {
        call_site: CallSiteId(site),
        caller,
        callee,
        resolution: ResolutionKind::Indirect,
    }
}

/// Whether there is an edge from a call site through a pointer to a function.
pub open spec fn shown(edges: Seq<CallGraphEdge>, site: u32, callee: FnId) -> bool {
    exists|caller: FnId| #[trigger] edges.contains(indirect_edge(site, caller, callee))
}

/// What every state of a run keeps to.
pub open spec fn run_sound(r: RunV, loaded: Set<u32>) -> bool {
    &&& sound(r.st)
    &&& forall|n: u32| #[trigger] loaded.contains(n) ==> r.pag.indices.load_src.contains_key(n)
    &&& forall|k: u32, f: FnId| #[trigger]
        list_of(r.resolved, k).contains(f) ==> shown(r.edges, k, f)
}

/// Whether one state of a run comes after another: nothing that is known is
/// lost.
pub open spec fn run_grown(a: RunV, b: RunV, loaded: Set<u32>) -> bool {
    &&& extended(a.pag, b.pag)
    &&& grown(a.st, b.st, loaded)
    &&& forall|e: CallGraphEdge| #[trigger] a.edges.contains(e) ==> b.edges.contains(e)
    &&& forall|e: CallGraphEdge| #[trigger]
        b.edges.contains(e) ==> a.edges.contains(e) || e.resolution != ResolutionKind::IpcBridge
    &&& more_listed(a.resolved, b.resolved)
    &&& a.wired.subset_of(b.wired)
    &&& forall|e: (CallSiteId, u32)| #[trigger] a.ends.contains(e) ==> b.ends.contains(e)
}

/// Whether the same arguments are wired in two states of a run, and the same
/// calls are known.
pub open spec fn same_wiring(a: RunV, b: RunV) -> bool {
    b.wired == a.wired && b.st.wired_copies == a.st.wired_copies && b.edges == a.edges
}

pub proof fn run_refl(a: RunV, loaded: Set<u32>)
    ensures
        run_grown(a, a, loaded),
{
    extended_refl(a.pag);
    grown_refl(a.st, loaded);
}

pub proof fn run_trans(a: RunV, b: RunV, c: RunV, loaded: Set<u32>)
    requires
        run_grown(a, b, loaded),
        run_grown(b, c, loaded),
    ensures
        run_grown(a, c, loaded),
{
    extended_trans(a.pag, b.pag, c.pag);
    grown_trans(a.st, b.st, c.st, loaded);
    more_trans(a.resolved, b.resolved, c.resolved);
    assert forall|e: CallGraphEdge| #[trigger] a.edges.contains(e) implies c.edges.contains(e) by {
        assert(b.edges.contains(e));
    }
    assert forall|e: CallGraphEdge| #[trigger] c.edges.contains(e) implies a.edges.contains(e)
        || e.resolution != ResolutionKind::IpcBridge by {
        if b.edges.contains(e) {
        }
    }
    assert forall|e: (CallSiteId, u32)| #[trigger] a.ends.contains(e) implies c.ends.contains(
        e,
    ) by {
        assert(b.ends.contains(e));
    }
}

/// A state with another graph and other contents.
proof fn run_with(a: RunV, pag: PagV, st: SolverV, loaded: Set<u32>)
    requires
        run_sound(a, loaded),
        extended(a.pag, pag),
        sound(st),
        grown(a.st, st, loaded),
    ensures
        run_sound(RunV { pag, st, ..a }, loaded),
        run_grown(a, RunV { pag, st, ..a }, loaded),
        st.wired_copies == a.st.wired_copies ==> same_wiring(a, RunV { pag, st, ..a }),
{
    assert forall|n: u32| #[trigger]
        loaded.contains(n) implies pag.indices.load_src.contains_key(n) by {
        assert(a.pag.indices.load_src.contains_key(n));
    }
}

/// A state with other contents.
pub proof fn run_with_st(a: RunV, st: SolverV, loaded: Set<u32>)
    requires
        run_sound(a, loaded),
        sound(st),
        grown(a.st, st, loaded),
    ensures
        run_sound(a.with_st(st), loaded),
        run_grown(a, a.with_st(st), loaded),
        st.wired_copies == a.st.wired_copies ==> same_wiring(a, a.with_st(st)),
{
    extended_refl(a.pag);
    run_with(a, a.pag, st, loaded);
}

/// Locations reach a node.
pub proof fn run_spread(a: RunV, n: u32, locs: Seq<u32>, loaded: Set<u32>)
    requires
        run_sound(a, loaded),
    ensures
        run_sound(a.with_st(a.st.spread(n, locs)), loaded),
        run_grown(a, a.with_st(a.st.spread(n, locs)), loaded),
        same_wiring(a, a.with_st(a.st.spread(n, locs))),
{
    spread_grows(a.st, n, locs, loaded);
    run_with_st(a, a.st.spread(n, locs), loaded);
}

pub proof fn with_copy_grows(a: RunV, src: PagNodeId, dst: PagNodeId, loaded: Set<u32>)
    requires
        run_sound(a, loaded),
    ensures
        run_sound(a.with_copy(src, dst), loaded),
        run_grown(a, a.with_copy(src, dst), loaded),
        same_wiring(a, a.with_copy(src, dst)),
{
    let i = a.pag.constraints.len() as usize;
    let p = a.pag.with_constraint(ConstraintKind::Copy, dst, src);
    let b = a.with_copy(src, dst);
    with_constraint_extends(a.pag, ConstraintKind::Copy, dst, src);
    listed_holds(p.indices.copy_src, src.0, i);
    assert(p.constraints.take(p.constraints.len() as int) =~= p.constraints);
    assert forall|l: LocId| #[trigger] b.pag.function_at(l) == p.function_at(l) by {
        assert(b.pag.location(l) == p.location(l));
    }
    if placed(p) {
        placed_same(p, b.pag);
    }
    assert(extended(p, b.pag));
    extended_trans(a.pag, p, b.pag);
    pushed_grows(a.st, src.0, loaded);
    grown_refl(a.st, loaded);
    run_with(a, b.pag, b.st, loaded);
}

pub proof fn with_param_grows(
    a: RunV,
    p: ProgramV,
    cs: SiteV,
    callee: FnId,
    formal: VarId,
    k: u32,
    loaded: Set<u32>,
)
    requires
        run_sound(a, loaded),
    ensures
        run_sound(a.with_param(p, cs, callee, formal, k), loaded),
        run_grown(a, a.with_param(p, cs, callee, formal, k), loaded),
{
    run_refl(a, loaded);
    match arg_at(cs.var_args, k, 0) {
        Some(actual) => {
            match (a.pag.node_of_var(formal), a.pag.node_of_var(actual)) {
                (Some(f), Some(n)) => {
                    let r = if p.may_hold_pointee(actual) && p.may_hold_pointee(formal) {
                        let st = SolverV {
                            wired_copies: a.st.wired_copies.insert((n.0, f.0)),
                            ..a.st
                        };
                        same_contents(a.st, st, loaded);
                        let s = a.with_st(st);
                        run_with_st(a, st, loaded);
                        if a.st.wired_copies.contains((n.0, f.0)) {
                            s
                        } else {
                            with_copy_grows(s, n, f, loaded);
                            run_trans(a, s, s.with_copy(n, f), loaded);
                            s.with_copy(n, f)
                        }
                    } else {
                        a
                    };
                    let t = r.with_st(r.st.spread(f.0, r.st.pts_of(n.0)));
                    run_spread(r, f.0, r.st.pts_of(n.0), loaded);
                    run_trans(a, r, t, loaded);
                    let b = a.with_param(p, cs, callee, formal, k);
                    assert(run_grown(t, b, loaded)) by {
                        run_refl(t, loaded);
                    }
                    run_trans(a, t, b, loaded);
                },
                _ => {},
            }
        },
        None => {
            match fn_arg_at(cs.fn_args, k, 0) {
                Some(g) => {
                    match a.pag.node_of_var(formal) {
                        Some(f) => {
                            let t = match a.pag.fn_location(g) {
                                Some(l) => {
                                    run_spread(a, f.0, seq![l.0], loaded);
                                    a.with_st(a.st.spread(f.0, seq![l.0]))
                                },
                                None => a,
                            };
                            let b = a.with_param(p, cs, callee, formal, k);
                            assert(run_grown(t, b, loaded)) by {
                                run_refl(t, loaded);
                            }
                            run_trans(a, t, b, loaded);
                        },
                        None => {},
                    }
                },
                None => {},
            }
        },
    }
}

pub proof fn with_params_grows(
    a: RunV,
    p: ProgramV,
    cs: SiteV,
    callee: FnId,
    params: Seq<VarId>,
    n: int,
    loaded: Set<u32>,
)
    requires
        run_sound(a, loaded),
    ensures
        run_sound(a.with_params(p, cs, callee, params, n), loaded),
        run_grown(a, a.with_params(p, cs, callee, params, n), loaded),
    decreases n,
{
    if n <= 0 {
        run_refl(a, loaded);
    } else {
        with_params_grows(a, p, cs, callee, params, n - 1, loaded);
        let r = a.with_params(p, cs, callee, params, n - 1);
        with_param_grows(r, p, cs, callee, params[n - 1], (n - 1) as u32, loaded);
        run_trans(a, r, a.with_params(p, cs, callee, params, n), loaded);
    }
}

pub proof fn wired_to_grows(a: RunV, p: ProgramV, cs: SiteV, callee: FnId, loaded: Set<u32>)
    requires
        run_sound(a, loaded),
    ensures
        run_sound(a.wired_to(p, cs, callee), loaded),
        run_grown(a, a.wired_to(p, cs, callee), loaded),
{
    run_refl(a, loaded);
    match p.symbols.function(callee) {
        Some(f) => {
            with_params_grows(a, p, cs, callee, f.params, f.params.len() as int, loaded);
        },
        None => {},
    }
}

proof fn with_model_copy_grows(a: RunV, cs: SiteV, dst: u32, src: u32, loaded: Set<u32>)
    requires
        run_sound(a, loaded),
    ensures
        run_sound(a.with_model_copy(cs, dst, src), loaded),
        run_grown(a, a.with_model_copy(cs, dst, src), loaded),
        same_wiring(a, a.with_model_copy(cs, dst, src)),
{
    run_refl(a, loaded);
    match (a.pag.arg_node(cs, dst), a.pag.arg_node(cs, src)) {
        (Some(dn), Some(sn)) => {
            let d = a.pag.side_of(dn);
            let s = a.pag.side_of(sn);
            if !a.st.wired_model_edges.contains((s.0, d.0)) {
                let st = SolverV {
                    wired_model_edges: a.st.wired_model_edges.insert((s.0, d.0)),
                    ..a.st
                };
                same_contents(a.st, st, loaded);
                let r = a.with_st(st);
                run_with_st(a, st, loaded);
                with_copy_grows(r, s, d, loaded);
                let t = r.with_copy(s, d);
                run_trans(a, r, t, loaded);
                run_spread(t, d.0, t.st.pts_of(s.0), loaded);
                run_trans(a, t, t.with_st(t.st.spread(d.0, t.st.pts_of(s.0))), loaded);
            }
        },
        _ => {},
    }
}

proof fn with_model_store_grows(a: RunV, cs: SiteV, ptr: u32, value: u32, loaded: Set<u32>)
    requires
        run_sound(a, loaded),
    ensures
        run_sound(a.with_model_store(cs, ptr, value), loaded),
        run_grown(a, a.with_model_store(cs, ptr, value), loaded),
        same_wiring(a, a.with_model_store(cs, ptr, value)),
{
    run_refl(a, loaded);
    match (a.pag.arg_node(cs, ptr), a.pag.arg_node(cs, value)) {
        (Some(t), Some(v)) => {
            if !a.st.wired_model_edges.contains((v.0, t.0)) {
                let i = a.pag.constraints.len() as usize;
                let q = a.pag.with_constraint(ConstraintKind::Store, t, v);
                let b = RunV {
                    pag: PagV {
                        indices: IndicesV {
                            store_dst: with_listed(q.indices.store_dst, t.0, i),
                            store_src: with_listed(q.indices.store_src, v.0, i),
                            ..q.indices
                        },
                        ..q
                    },
                    st: (SolverV {
                        wired_model_edges: a.st.wired_model_edges.insert((v.0, t.0)),
                        ..a.st
                    }).pushed(t.0).pushed(v.0),
                    ..a
                };
                with_constraint_extends(a.pag, ConstraintKind::Store, t, v);
                listed_holds(q.indices.store_dst, t.0, i);
                listed_holds(q.indices.store_src, v.0, i);
                assert(q.constraints.take(q.constraints.len() as int) =~= q.constraints);
                assert forall|l: LocId| #[trigger] b.pag.function_at(l) == q.function_at(l) by {
                    assert(b.pag.location(l) == q.location(l));
                }
                if placed(q) {
                    placed_same(q, b.pag);
                }
                assert(extended(q, b.pag));
                extended_trans(a.pag, q, b.pag);
                let s1 = SolverV {
                    wired_model_edges: a.st.wired_model_edges.insert((v.0, t.0)),
                    ..a.st
                };
                same_contents(a.st, s1, loaded);
                pushed_grows(s1, t.0, loaded);
                let s2 = s1.pushed(t.0);
                pushed_grows(s2, v.0, loaded);
                grown_trans(a.st, s1, s2, loaded);
                grown_trans(a.st, s2, s2.pushed(v.0), loaded);
                run_with(a, b.pag, b.st, loaded);
                store_grows(b.st, b.pag, i, None, loaded);
                let after = b.st.store(b.pag, i, None);
                run_with_st(b, after, loaded);
                run_trans(a, b, b.with_st(after), loaded);
            }
        },
        _ => {},
    }
}

pub proof fn with_effect_grows(a: RunV, cs: SiteV, effect: Effect, loaded: Set<u32>)
    requires
        run_sound(a, loaded),
    ensures
        run_sound(a.with_effect(cs, effect), loaded),
        run_grown(a, a.with_effect(cs, effect), loaded),
        same_wiring(a, a.with_effect(cs, effect)),
{
    run_refl(a, loaded);
    match effect {
        Effect::Alias { dst, src } => {
            with_model_copy_grows(a, cs, dst, src, loaded);
        },
        Effect::MemCopy { dst, src } => {
            with_model_copy_grows(a, cs, dst, src, loaded);
        },
        Effect::ContentStore { ptr, value } => {
            with_model_store_grows(a, cs, ptr, value, loaded);
        },
        Effect::Clears { param } => {
            let b = a.with_effect(cs, effect);
            assert forall|e: (CallSiteId, u32)| #[trigger] a.ends.contains(
                e,
            ) implies b.ends.contains(e) by {
                push_holds(a.ends, (cs.id, param), e);
            }
        },
        _ => {},
    }
}

pub proof fn with_effects_grows(a: RunV, cs: SiteV, effects: Seq<Effect>, n: int, loaded: Set<u32>)
    requires
        run_sound(a, loaded),
    ensures
        run_sound(a.with_effects(cs, effects, n), loaded),
        run_grown(a, a.with_effects(cs, effects, n), loaded),
        same_wiring(a, a.with_effects(cs, effects, n)),
    decreases n,
{
    if n <= 0 {
        run_refl(a, loaded);
    } else {
        with_effects_grows(a, cs, effects, n - 1, loaded);
        let r = a.with_effects(cs, effects, n - 1);
        with_effect_grows(r, cs, effects[n - 1], loaded);
        run_trans(a, r, r.with_effect(cs, effects[n - 1]), loaded);
    }
}

pub proof fn modeled_grows(a: RunV, models: Seq<ModelV>, cs: SiteV, name: Seq<char>, loaded: Set<u32>)
    requires
        run_sound(a, loaded),
    ensures
        run_sound(a.modeled(models, cs, name), loaded),
        run_grown(a, a.modeled(models, cs, name), loaded),
        same_wiring(a, a.modeled(models, cs, name)),
{
    run_refl(a, loaded);
    match model_of(models, name, 0) {
        Some(m) => {
            with_effects_grows(a, cs, m.effects, m.effects.len() as int, loaded);
        },
        None => {},
    }
}

/// One more edge.
pub proof fn with_edge_grows(a: RunV, b: RunV, e: CallGraphEdge, loaded: Set<u32>)
    requires
        run_sound(a, loaded),
        e.resolution != ResolutionKind::IpcBridge,
        b == (RunV { edges: a.edges.push(e), ..a }),
    ensures
        run_sound(b, loaded),
        run_grown(a, b, loaded),
        b.edges.contains(e),
{
    run_refl(a, loaded);
    push_holds(a.edges, e, e);
    assert forall|x: CallGraphEdge| #[trigger] a.edges.contains(x) implies b.edges.contains(x) by {
        push_holds(a.edges, e, x);
    }
    assert forall|x: CallGraphEdge| #[trigger] b.edges.contains(x) implies a.edges.contains(x)
        || x.resolution != ResolutionKind::IpcBridge by {
        push_holds(a.edges, e, x);
    }
    assert forall|k: u32, f: FnId| #[trigger] list_of(b.resolved, k).contains(f) implies shown(
        b.edges,
        k,
        f,
    ) by {
        assert(list_of(a.resolved, k).contains(f));
        let c = choose|c: FnId| #[trigger] a.edges.contains(indirect_edge(k, c, f));
        assert(b.edges.contains(indirect_edge(k, c, f)));
    }
}

/// The edge from a call site to a function that it reaches without any
/// pointer.
pub open spec fn direct_edge(p: ProgramV, cs: SiteV, callee: FnId) -> CallGraphEdge {
    CallGraphEdge {
        call_site: cs.id,
        caller: cs.caller,
        callee,
        resolution: match p.symbols.function(callee) {
            Some(f) => if f.is_defined {
                ResolutionKind::Direct
            } else {
                ResolutionKind::External
            },
            None => ResolutionKind::External,
        },
    }
}

pub proof fn with_direct_grows(
    a: RunV,
    p: ProgramV,
    models: Seq<ModelV>,
    cs: SiteV,
    callees: Seq<FnId>,
    n: int,
    loaded: Set<u32>,
)
    requires
        run_sound(a, loaded),
    ensures
        run_sound(a.with_direct(p, models, cs, callees, n), loaded),
        run_grown(a, a.with_direct(p, models, cs, callees, n), loaded),
        forall|i: int|
            0 <= i < n && p.symbols.function(#[trigger] callees[i]) is Some ==> a.with_direct(
                p,
                models,
                cs,
                callees,
                n,
            ).edges.contains(direct_edge(p, cs, callees[i])),
    decreases n,
{
    if n <= 0 {
        run_refl(a, loaded);
    } else {
        with_direct_grows(a, p, models, cs, callees, n - 1, loaded);
        let r = a.with_direct(p, models, cs, callees, n - 1);
        let b = a.with_direct(p, models, cs, callees, n);
        let callee = callees[n - 1];
        match p.symbols.function(callee) {
            Some(f) => {
                let e = direct_edge(p, cs, callee);
                let r1 = RunV { edges: r.edges.push(e), ..r };
                with_edge_grows(r, r1, e, loaded);
                let r2 = r1.wired_to(p, cs, callee);
                wired_to_grows(r1, p, cs, callee, loaded);
                modeled_grows(r2, models, cs, f.name, loaded);
                run_trans(a, r, r1, loaded);
                run_trans(a, r1, r2, loaded);
                run_trans(a, r2, b, loaded);
                assert(r2.edges.contains(e));
                assert forall|i: int|
                    0 <= i < n && p.symbols.function(
                        #[trigger] callees[i],
                    ) is Some implies b.edges.contains(direct_edge(p, cs, callees[i])) by {
                    if i < n - 1 {
                        assert(r.edges.contains(direct_edge(p, cs, callees[i])));
                        assert(r1.edges.contains(direct_edge(p, cs, callees[i])));
                        assert(r2.edges.contains(direct_edge(p, cs, callees[i])));
                    }
                }
            },
            None => {},
        }
    }
}

pub proof fn with_direct_calls_grows(
    a: RunV,
    p: ProgramV,
    models: Seq<ModelV>,
    n: int,
    loaded: Set<u32>,
)
    requires
        run_sound(a, loaded),
    ensures
        run_sound(a.with_direct_calls(p, models, n), loaded),
        run_grown(a, a.with_direct_calls(p, models, n), loaded),
        forall|k: int, i: int|
            0 <= k < n && 0 <= i < p.direct_callees(p.symbols.call_sites[k]).len()
                && p.symbols.function(
                #[trigger] p.direct_callees(p.symbols.call_sites[k])[i],
            ) is Some ==> a.with_direct_calls(p, models, n).edges.contains(
                direct_edge(
                    p,
                    p.symbols.call_sites[k],
                    p.direct_callees(p.symbols.call_sites[k])[i],
                ),
            ),
    decreases n,
{
    if n <= 0 {
        run_refl(a, loaded);
    } else {
        with_direct_calls_grows(a, p, models, n - 1, loaded);
        let r = a.with_direct_calls(p, models, n - 1);
        let cs = p.symbols.call_sites[n - 1];
        let callees = p.direct_callees(cs);
        with_direct_grows(r, p, models, cs, callees, callees.len() as int, loaded);
        let b = a.with_direct_calls(p, models, n);
        run_trans(a, r, b, loaded);
        assert forall|k: int, i: int|
            0 <= k < n && 0 <= i < p.direct_callees(p.symbols.call_sites[k]).len()
                && p.symbols.function(
                #[trigger] p.direct_callees(p.symbols.call_sites[k])[i],
            ) is Some implies b.edges.contains(
            direct_edge(
                p,
                p.symbols.call_sites[k],
                p.direct_callees(p.symbols.call_sites[k])[i],
            ),
        ) by {
            let site = p.symbols.call_sites[k];
            let f = p.direct_callees(site)[i];
            if k < n - 1 {
                assert(r.edges.contains(direct_edge(p, site, f)));
            } else {
                assert(p.symbols.function(callees[i]) is Some);
            }
        }
    }
}

pub proof fn with_addresses_grows(a: RunV, node: u32, idxs: Seq<usize>, n: int, loaded: Set<u32>)
    requires
        run_sound(a, loaded),
    ensures
        run_sound(a.with_addresses(node, idxs, n), loaded),
        run_grown(a, a.with_addresses(node, idxs, n), loaded),
        same_wiring(a, a.with_addresses(node, idxs, n)),
    decreases n,
{
    if n <= 0 {
        run_refl(a, loaded);
    } else {
        with_addresses_grows(a, node, idxs, n - 1, loaded);
        let r = a.with_addresses(node, idxs, n - 1);
        match r.pag.source_loc(idxs[n - 1]) {
            Some(l) => {
                run_spread(r, node, seq![l.0], loaded);
                run_trans(a, r, r.with_st(r.st.spread(node, seq![l.0])), loaded);
            },
            None => {},
        }
    }
}

pub proof fn with_var_summary_grows(
    a: RunV,
    p: ProgramV,
    src: PagNodeId,
    field: FieldId,
    dst: u32,
    loaded: Set<u32>,
)
    requires
        run_sound(a, loaded),
    ensures
        run_sound(a.with_var_summary(p, src, field, dst), loaded),
        run_grown(a, a.with_var_summary(p, src, field, dst), loaded),
        same_wiring(a, a.with_var_summary(p, src, field, dst)),
{
    run_refl(a, loaded);
    match a.pag.kind_of(src) {
        Some(PagNodeKind::Var(base)) => {
            let (q, s) = a.pag.ensured_var_summary(p, base, field);
            ensured_var_summary_extends(a.pag, p, base, field);
            match s {
                Some(l) => {
                    spread_grows(a.st, dst, seq![l.0], loaded);
                    let s1 = a.st.spread(dst, seq![l.0]);
                    merged_grows(s1, dst, l.0, loaded);
                    grown_trans(a.st, s1, s1.merged(dst, l.0), loaded);
                    run_with(a, q, s1.merged(dst, l.0), loaded);
                },
                None => {
                    grown_refl(a.st, loaded);
                    run_with(a, q, a.st, loaded);
                },
            }
        },
        _ => {},
    }
}

pub proof fn with_first_geps_grows(a: RunV, p: ProgramV, idxs: Seq<usize>, n: int, loaded: Set<u32>)
    requires
        run_sound(a, loaded),
    ensures
        run_sound(a.with_first_geps(p, idxs, n), loaded),
        run_grown(a, a.with_first_geps(p, idxs, n), loaded),
        same_wiring(a, a.with_first_geps(p, idxs, n)),
    decreases n,
{
    if n <= 0 {
        run_refl(a, loaded);
    } else {
        with_first_geps_grows(a, p, idxs, n - 1, loaded);
        let r = a.with_first_geps(p, idxs, n - 1);
        match r.pag.constraint(idxs[n - 1]) {
            Some(c) => {
                match c.field {
                    Some(field) => {
                        with_var_summary_grows(r, p, c.src, field, c.dst.0, loaded);
                        run_trans(a, r, r.with_var_summary(p, c.src, field, c.dst.0), loaded);
                    },
                    None => {},
                }
            },
            None => {},
        }
    }
}

pub proof fn first_look_grows(a: RunV, p: ProgramV, node: u32, loaded: Set<u32>)
    requires
        run_sound(a, loaded),
    ensures
        run_sound(a.first_look(p, node), loaded),
        run_grown(a, a.first_look(p, node), loaded),
        same_wiring(a, a.first_look(p, node)),
{
    run_refl(a, loaded);
    if !a.st.seen_once.contains(node) {
        let st = SolverV { seen_once: a.st.seen_once.insert(node), ..a.st };
        same_contents(a.st, st, loaded);
        let r = a.with_st(st);
        run_with_st(a, st, loaded);
        let addrs = list_of(r.pag.indices.addr_of_dst, node);
        let s = r.with_addresses(node, addrs, addrs.len() as int);
        with_addresses_grows(r, node, addrs, addrs.len() as int, loaded);
        let geps = list_of(s.pag.indices.gep_src, node);
        with_first_geps_grows(s, p, geps, geps.len() as int, loaded);
        run_trans(a, r, s, loaded);
        run_trans(a, s, a.first_look(p, node), loaded);
    }
}

/// Copies: what is copied reaches each of them.
pub proof fn with_copies_grows(
    a: RunV,
    delta: Seq<u32>,
    idxs: Seq<usize>,
    n: int,
    loaded: Set<u32>,
)
    requires
        run_sound(a, loaded),
        0 <= n <= idxs.len(),
    ensures
        run_sound(a.with_copies(delta, idxs, n), loaded),
        run_grown(a, a.with_copies(delta, idxs, n), loaded),
        same_wiring(a, a.with_copies(delta, idxs, n)),
        a.with_copies(delta, idxs, n).pag == a.pag,
        forall|i: int, l: u32|
            0 <= i < n && #[trigger] delta.contains(l) && a.pag.constraint(#[trigger] idxs[i]) is Some
                ==> holds(
                a.with_copies(delta, idxs, n).st,
                a.pag.constraint(idxs[i])->0.dst.0,
                l,
            ),
    decreases n,
{
    if n <= 0 {
        run_refl(a, loaded);
    } else {
        with_copies_grows(a, delta, idxs, n - 1, loaded);
        let r = a.with_copies(delta, idxs, n - 1);
        let b = a.with_copies(delta, idxs, n);
        match r.pag.constraint(idxs[n - 1]) {
            Some(c) => {
                spread_grows(r.st, c.dst.0, delta, loaded);
                run_spread(r, c.dst.0, delta, loaded);
                run_trans(a, r, b, loaded);
            },
            None => {
                run_refl(r, loaded);
            },
        }
        assert forall|i: int, l: u32|
            0 <= i < n && #[trigger] delta.contains(l) && a.pag.constraint(
                #[trigger] idxs[i],
            ) is Some implies holds(b.st, a.pag.constraint(idxs[i])->0.dst.0, l) by {
            let d = a.pag.constraint(idxs[i])->0.dst.0;
            if i < n - 1 {
                assert(holds(r.st, d, l));
            }
        }
    }
}

/// Whether what a load takes from a place has reached a node: a function is
/// its own value, any other place hands out what it holds.
pub open spec fn took(pag: PagV, st: SolverV, dst: u32, l: u32) -> bool {
    if pag.function_at(LocId(l)) is Some {
        holds(st, dst, l)
    } else {
        has_loaded(st, dst, l)
    }
}

/// What a load has taken stays taken while places stay as they are.
proof fn took_kept(pag: PagV, a: SolverV, b: SolverV, dst: u32, l: u32, loaded: Set<u32>)
    requires
        took(pag, a, dst, l),
        grown(a, b, loaded),
        b.memory_of(l) == a.memory_of(l),
    ensures
        took(pag, b, dst, l),
{
    if pag.function_at(LocId(l)) is None {
        assert forall|x: u32| #[trigger]
            b.memory_of(l).contains(x) && b.lets_out(l, x) implies holds(b, dst, x) by {
            assert(a.memory_of(l).contains(x) && a.lets_out(l, x));
            assert(holds(a, dst, x));
        }
    }
}

proof fn with_loaded_grows(a: RunV, dst: u32, delta: Seq<u32>, k: int, loaded: Set<u32>)
    requires
        run_sound(a, loaded),
        0 <= k <= delta.len(),
    ensures
        ({
            let b = a.with_loaded(dst, delta, k);
            &&& run_sound(b, loaded)
            &&& run_grown(a, b, loaded)
            &&& same_wiring(a, b)
            &&& b.pag == a.pag
            &&& b.st.memory == a.st.memory
            &&& forall|i: int| 0 <= i < k ==> took(a.pag, b.st, dst, #[trigger] delta[i])
        }),
    decreases k,
{
    if k <= 0 {
        run_refl(a, loaded);
    } else {
        with_loaded_grows(a, dst, delta, k - 1, loaded);
        let r = a.with_loaded(dst, delta, k - 1);
        let b = a.with_loaded(dst, delta, k);
        let l = delta[k - 1];
        if r.pag.function_at(LocId(l)) is Some {
            spread_grows(r.st, dst, seq![l], loaded);
            run_spread(r, dst, seq![l], loaded);
            assert(seq![l][0] == l);
            assert(seq![l].contains(l));
        } else {
            merged_grows(r.st, dst, l, loaded);
            run_with_st(r, r.st.merged(dst, l), loaded);
        }
        run_trans(a, r, b, loaded);
        assert forall|i: int| 0 <= i < k implies took(a.pag, b.st, dst, #[trigger] delta[i]) by {
            if i < k - 1 {
                assert(took(a.pag, r.st, dst, delta[i]));
                assert(b.st.memory_of(delta[i]) == r.st.memory_of(delta[i]));
                took_kept(a.pag, r.st, b.st, dst, delta[i], loaded);
            }
        }
    }
}

/// Loads: each takes what it can.
pub proof fn with_loads_grows(
    a: RunV,
    delta: Seq<u32>,
    idxs: Seq<usize>,
    n: int,
    loaded: Set<u32>,
)
    requires
        run_sound(a, loaded),
        0 <= n <= idxs.len(),
    ensures
        ({
            let b = a.with_loads(delta, idxs, n);
            &&& run_sound(b, loaded)
            &&& run_grown(a, b, loaded)
            &&& same_wiring(a, b)
            &&& b.pag == a.pag
            &&& b.st.memory == a.st.memory
            &&& forall|i: int, l: u32|
                0 <= i < n && #[trigger] delta.contains(l) && a.pag.constraint(
                    #[trigger] idxs[i],
                ) is Some ==> took(a.pag, b.st, a.pag.constraint(idxs[i])->0.dst.0, l)
        }),
    decreases n,
{
    if n <= 0 {
        run_refl(a, loaded);
    } else {
        with_loads_grows(a, delta, idxs, n - 1, loaded);
        let r = a.with_loads(delta, idxs, n - 1);
        let b = a.with_loads(delta, idxs, n);
        match r.pag.constraint(idxs[n - 1]) {
            Some(c) => {
                with_loaded_grows(r, c.dst.0, delta, delta.len() as int, loaded);
                run_trans(a, r, b, loaded);
            },
            None => {
                run_refl(r, loaded);
            },
        }
        assert forall|i: int, l: u32|
            0 <= i < n && #[trigger] delta.contains(l) && a.pag.constraint(
                #[trigger] idxs[i],
            ) is Some implies took(a.pag, b.st, a.pag.constraint(idxs[i])->0.dst.0, l) by {
            let d = a.pag.constraint(idxs[i])->0.dst.0;
            if i < n - 1 {
                assert(took(a.pag, r.st, d, l));
                assert(b.st.memory_of(l) == r.st.memory_of(l));
                took_kept(a.pag, r.st, b.st, d, l, loaded);
            } else {
                let j = choose|j: int| 0 <= j < delta.len() && delta[j] == l;
                assert(took(r.pag, b.st, d, delta[j]));
            }
        }
    }
}

/// Stores: each has taken effect.
pub proof fn with_stores_grows(
    a: RunV,
    given: Option<Seq<u32>>,
    idxs: Seq<usize>,
    n: int,
    loaded: Set<u32>,
)
    requires
        run_sound(a, loaded),
        0 <= n <= idxs.len(),
    ensures
        ({
            let b = a.with_stores(given, idxs, n);
            &&& run_sound(b, loaded)
            &&& run_grown(a, b, loaded)
            &&& same_wiring(a, b)
            &&& b.pag == a.pag
            &&& forall|i: int, l: u32, v: u32|
                0 <= i < n && a.pag.constraint(#[trigger] idxs[i]) is Some && (match given {
                    Some(ts) => ts.contains(l),
                    None => holds(a.st, a.pag.constraint(idxs[i])->0.dst.0, l),
                }) && a.pag.function_at(LocId(l)) is None && holds(
                    a.st,
                    a.pag.constraint(idxs[i])->0.src.0,
                    v,
                ) && #[trigger] may_write(a.pag, a.st, l, v) ==> b.st.memory_of(l).contains(v)
        }),
    decreases n,
{
    if n <= 0 {
        run_refl(a, loaded);
    } else {
        with_stores_grows(a, given, idxs, n - 1, loaded);
        let r = a.with_stores(given, idxs, n - 1);
        let b = a.with_stores(given, idxs, n);
        store_grows(r.st, r.pag, idxs[n - 1], given, loaded);
        run_with_st(r, r.st.store(r.pag, idxs[n - 1], given), loaded);
        run_trans(a, r, b, loaded);
        assert forall|i: int, l: u32, v: u32|
            0 <= i < n && a.pag.constraint(#[trigger] idxs[i]) is Some && (match given {
                Some(ts) => ts.contains(l),
                None => holds(a.st, a.pag.constraint(idxs[i])->0.dst.0, l),
            }) && a.pag.function_at(LocId(l)) is None && holds(
                a.st,
                a.pag.constraint(idxs[i])->0.src.0,
                v,
            ) && #[trigger] may_write(a.pag, a.st, l, v) implies b.st.memory_of(l).contains(v) by {
            let c = a.pag.constraint(idxs[i])->0;
            if i < n - 1 {
                assert(r.st.memory_of(l).contains(v));
                assert(begins_with(b.st.memory_of(l), r.st.memory_of(l)));
                let k = choose|k: int|
                    0 <= k < r.st.memory_of(l).len() && r.st.memory_of(l)[k] == v;
                assert(b.st.memory_of(l).take(r.st.memory_of(l).len() as int)[k] == v);
                assert(b.st.memory_of(l)[k] == v);
            } else {
                assert(may_write(r.pag, r.st, l, v));
                assert(holds(r.st, c.src.0, v));
                match given {
                    Some(ts) => {},
                    None => {
                        assert(holds(r.st, c.dst.0, l));
                    },
                }
                assert(store_targets(r.st, c.dst.0, given).contains(l));
            }
        }
    }
}

pub proof fn with_array_members_grows(a: RunV, array: VarId, dst: u32, loaded: Set<u32>)
    requires
        run_sound(a, loaded),
    ensures
        run_sound(a.with_array_members(array, dst), loaded),
        run_grown(a, a.with_array_members(array, dst), loaded),
        same_wiring(a, a.with_array_members(array, dst)),
{
    let fns = loc_numbers(list_of(a.pag.array_fn_members, array.0));
    spread_each_grows(a.st, dst, fns, fns.len() as int, loaded);
    run_with_st(a, a.st.spread_each(dst, fns, fns.len() as int), loaded);
}

pub proof fn with_function_field_grows(
    a: RunV,
    p: ProgramV,
    src: PagNodeId,
    dst: u32,
    field: FieldId,
    l: u32,
    f: FnId,
    loaded: Set<u32>,
)
    requires
        run_sound(a, loaded),
    ensures
        run_sound(a.with_function_field(p, src, dst, field, l, f), loaded),
        run_grown(a, a.with_function_field(p, src, dst, field, l, f), loaded),
        same_wiring(a, a.with_function_field(p, src, dst, field, l, f)),
{
    run_refl(a, loaded);
    run_spread(a, dst, seq![l], loaded);
    match a.pag.kind_of(src) {
        Some(PagNodeKind::Var(v)) => {
            with_array_members_grows(a, v, dst, loaded);
        },
        _ => {},
    }
}

pub proof fn with_object_field_grows(
    a: RunV,
    p: ProgramV,
    dst: u32,
    field: FieldId,
    l: u32,
    loaded: Set<u32>,
)
    requires
        run_sound(a, loaded),
    ensures
        run_sound(a.with_object_field(p, dst, field, l).0, loaded),
        run_grown(a, a.with_object_field(p, dst, field, l).0, loaded),
        same_wiring(a, a.with_object_field(p, dst, field, l).0),
{
    let (q, fl) = a.pag.ensured_field(p, LocId(l), field);
    ensured_field_extends(a.pag, p, LocId(l), field);
    match fl {
        Some(place) => {
            let st = match q.summary_of(place) {
                Some(sum) => {
                    let locs = seq![place.0, sum.0];
                    let s1 = a.st.spread(dst, locs);
                    spread_grows(a.st, dst, locs, loaded);
                    let s2 = s1.merged(dst, place.0);
                    merged_grows(s1, dst, place.0, loaded);
                    merged_grows(s2, dst, sum.0, loaded);
                    grown_trans(a.st, s1, s2, loaded);
                    grown_trans(a.st, s2, s2.merged(dst, sum.0), loaded);
                    s2.merged(dst, sum.0)
                },
                None => {
                    let locs = seq![place.0];
                    let s1 = a.st.spread(dst, locs);
                    spread_grows(a.st, dst, locs, loaded);
                    merged_grows(s1, dst, place.0, loaded);
                    grown_trans(a.st, s1, s1.merged(dst, place.0), loaded);
                    s1.merged(dst, place.0)
                },
            };
            let r = RunV { pag: q, st, ..a };
            run_with(a, q, st, loaded);
            match q.location(LocId(l)) {
                Some(loc) => {
                    match loc.var {
                        Some(owner) => {
                            with_array_members_grows(r, owner, dst, loaded);
                            run_trans(a, r, r.with_array_members(owner, dst), loaded);
                        },
                        None => {},
                    }
                },
                None => {},
            }
        },
        None => {
            grown_refl(a.st, loaded);
            run_with(a, q, a.st, loaded);
        },
    }
}

pub proof fn with_gep_locs_grows(
    a: RunV,
    p: ProgramV,
    c: ConstraintV,
    field: FieldId,
    delta: Seq<u32>,
    k: int,
    loaded: Set<u32>,
)
    requires
        run_sound(a, loaded),
    ensures
        run_sound(a.with_gep_locs(p, c, field, delta, k).0, loaded),
        run_grown(a, a.with_gep_locs(p, c, field, delta, k).0, loaded),
        same_wiring(a, a.with_gep_locs(p, c, field, delta, k).0),
    decreases k,
{
    if k <= 0 {
        run_refl(a, loaded);
    } else {
        with_gep_locs_grows(a, p, c, field, delta, k - 1, loaded);
        let (r, some) = a.with_gep_locs(p, c, field, delta, k - 1);
        let b = a.with_gep_locs(p, c, field, delta, k).0;
        let l = delta[k - 1];
        run_refl(r, loaded);
        if r.field_fits(p, l, field, c.field_name) {
            match r.pag.function_at(LocId(l)) {
                Some(f) => {
                    with_function_field_grows(r, p, c.src, c.dst.0, field, l, f, loaded);
                },
                None => {
                    with_object_field_grows(r, p, c.dst.0, field, l, loaded);
                },
            }
        }
        run_trans(a, r, b, loaded);
    }
}

pub proof fn with_gep_grows(a: RunV, look: LookV, i: usize, loaded: Set<u32>)
    requires
        run_sound(a, loaded),
    ensures
        run_sound(a.with_gep(look, i), loaded),
        run_grown(a, a.with_gep(look, i), loaded),
        same_wiring(a, a.with_gep(look, i)),
{
    run_refl(a, loaded);
    match a.pag.constraint(i) {
        Some(c) => {
            match c.field {
                Some(field) => {
                    let n = look.delta.len() as int;
                    let (r, some) = a.with_gep_locs(look.p, c, field, look.delta, n);
                    with_gep_locs_grows(a, look.p, c, field, look.delta, n, loaded);
                    with_var_summary_grows(r, look.p, c.src, field, c.dst.0, loaded);
                    run_trans(a, r, r.with_var_summary(look.p, c.src, field, c.dst.0), loaded);
                },
                None => {},
            }
        },
        None => {},
    }
}

pub proof fn with_geps_grows(a: RunV, look: LookV, idxs: Seq<usize>, n: int, loaded: Set<u32>)
    requires
        run_sound(a, loaded),
    ensures
        run_sound(a.with_geps(look, idxs, n), loaded),
        run_grown(a, a.with_geps(look, idxs, n), loaded),
        same_wiring(a, a.with_geps(look, idxs, n)),
    decreases n,
{
    if n <= 0 {
        run_refl(a, loaded);
    } else {
        with_geps_grows(a, look, idxs, n - 1, loaded);
        let r = a.with_geps(look, idxs, n - 1);
        with_gep_grows(r, look, idxs[n - 1], loaded);
        run_trans(a, r, a.with_geps(look, idxs, n), loaded);
    }
}

pub proof fn with_named_grows(
    a: RunV,
    fns: Seq<FnV>,
    name: Seq<char>,
    dst: u32,
    n: int,
    loaded: Set<u32>,
)
    requires
        run_sound(a, loaded),
    ensures
        run_sound(a.with_named(fns, name, dst, n), loaded),
        run_grown(a, a.with_named(fns, name, dst, n), loaded),
        same_wiring(a, a.with_named(fns, name, dst, n)),
    decreases n,
{
    if n <= 0 {
        run_refl(a, loaded);
    } else {
        with_named_grows(a, fns, name, dst, n - 1, loaded);
        let r = a.with_named(fns, name, dst, n - 1);
        run_refl(r, loaded);
        match r.pag.fn_location(fns[n - 1].id) {
            Some(l) => {
                run_spread(r, dst, seq![l.0], loaded);
            },
            None => {},
        }
        run_trans(a, r, a.with_named(fns, name, dst, n), loaded);
    }
}

pub proof fn with_looked_up_grows(
    a: RunV,
    p: ProgramV,
    dst: u32,
    delta: Seq<u32>,
    k: int,
    loaded: Set<u32>,
)
    requires
        run_sound(a, loaded),
    ensures
        run_sound(a.with_looked_up(p, dst, delta, k), loaded),
        run_grown(a, a.with_looked_up(p, dst, delta, k), loaded),
        same_wiring(a, a.with_looked_up(p, dst, delta, k)),
    decreases k,
{
    if k <= 0 {
        run_refl(a, loaded);
    } else {
        with_looked_up_grows(a, p, dst, delta, k - 1, loaded);
        let r = a.with_looked_up(p, dst, delta, k - 1);
        run_refl(r, loaded);
        match r.pag.location(LocId(delta[k - 1])) {
            Some(loc) => {
                with_named_grows(
                    r,
                    p.symbols.functions,
                    loc.desc,
                    dst,
                    p.symbols.functions.len() as int,
                    loaded,
                );
            },
            None => {},
        }
        run_trans(a, r, a.with_looked_up(p, dst, delta, k), loaded);
    }
}

pub proof fn with_lookups_grows(a: RunV, look: LookV, idxs: Seq<usize>, n: int, loaded: Set<u32>)
    requires
        run_sound(a, loaded),
    ensures
        run_sound(a.with_lookups(look, idxs, n), loaded),
        run_grown(a, a.with_lookups(look, idxs, n), loaded),
        same_wiring(a, a.with_lookups(look, idxs, n)),
    decreases n,
{
    if n <= 0 {
        run_refl(a, loaded);
    } else {
        with_lookups_grows(a, look, idxs, n - 1, loaded);
        let r = a.with_lookups(look, idxs, n - 1);
        run_refl(r, loaded);
        match r.pag.constraint(idxs[n - 1]) {
            Some(c) => {
                with_looked_up_grows(
                    r,
                    look.p,
                    c.dst.0,
                    look.delta,
                    look.delta.len() as int,
                    loaded,
                );
            },
            None => {},
        }
        run_trans(a, r, a.with_lookups(look, idxs, n), loaded);
    }
}

proof fn pushed_all_grows(a: SolverV, nodes: Seq<u32>, k: int, loaded: Set<u32>)
    requires
        sound(a),
    ensures
        sound(a.pushed_all(nodes, k)),
        grown(a, a.pushed_all(nodes, k), loaded),
        a.pushed_all(nodes, k).wired_copies == a.wired_copies,
    decreases k,
{
    if k <= 0 {
        grown_refl(a, loaded);
    } else {
        pushed_all_grows(a, nodes, k - 1, loaded);
        let s = a.pushed_all(nodes, k - 1);
        pushed_grows(s, nodes[k - 1], loaded);
        grown_trans(a, s, s.pushed(nodes[k - 1]), loaded);
    }
}

pub proof fn with_returns_grows(
    a: RunV,
    p: ProgramV,
    models: Seq<ModelV>,
    cs: SiteV,
    callee: FnId,
    loaded: Set<u32>,
)
    requires
        run_sound(a, loaded),
    ensures
        run_sound(a.with_returns(p, models, cs, callee), loaded),
        run_grown(a, a.with_returns(p, models, cs, callee), loaded),
        same_wiring(a, a.with_returns(p, models, cs, callee)),
{
    run_refl(a, loaded);
    match cs.callee_var {
        Some(v) => {
            if a.pag.indirect_return_dst.contains_key(v.0) {
                let from = a.pag.constraints.len() as int;
                let dst = PagNodeId(a.pag.indirect_return_dst[v.0]);
                let q = a.pag.with_returns_of(p, models, dst, callee);
                expand_extends(
                    ExpandV { pag: a.pag, visited: Set::empty(), applied: false },
                    p,
                    models,
                    dst,
                    callee,
                    p.fn_returns.len() + 1,
                );
                let q2 = q.with_indices(from, q.constraints.len() as int);
                with_indices_extends(q, from, q.constraints.len() as int);
                extended_trans(a.pag, q, q2);
                let again = node_numbers(q.touched(from, q.constraints.len() as int));
                pushed_all_grows(a.st, again, again.len() as int, loaded);
                let st = a.st.pushed_all(again, again.len() as int);
                run_with(a, q2, st, loaded);
                let r = RunV { pag: q2, st, ..a };
                caught_up_grows(r, from, q2.constraints.len() as int, loaded);
                run_trans(
                    a,
                    r,
                    r.with_st(r.st.caught_up(q2, from, q2.constraints.len() as int)),
                    loaded,
                );
            }
        },
        None => {},
    }
}

/// What is known already reaches the destinations of constraints.
proof fn caught_up_grows(a: RunV, from: int, n: int, loaded: Set<u32>)
    requires
        run_sound(a, loaded),
    ensures
        run_sound(a.with_st(a.st.caught_up(a.pag, from, n)), loaded),
        run_grown(a, a.with_st(a.st.caught_up(a.pag, from, n)), loaded),
        same_wiring(a, a.with_st(a.st.caught_up(a.pag, from, n))),
    decreases n - from,
{
    if n <= from {
        run_refl(a, loaded);
    } else {
        caught_up_grows(a, from, n - 1, loaded);
        let s = a.st.caught_up(a.pag, from, n - 1);
        let r = a.with_st(s);
        let c = a.pag.constraints[n - 1];
        match c.kind {
            ConstraintKind::Copy => {
                run_spread(r, c.dst.0, s.pts_of(c.src.0), loaded);
                run_trans(a, r, r.with_st(s.spread(c.dst.0, s.pts_of(c.src.0))), loaded);
            },
            ConstraintKind::AddrOf => {
                match a.pag.kind_of(c.src) {
                    Some(PagNodeKind::Loc(l)) => {
                        run_spread(r, c.dst.0, seq![l.0], loaded);
                        run_trans(a, r, r.with_st(s.spread(c.dst.0, seq![l.0])), loaded);
                    },
                    _ => {},
                }
            },
            _ => {},
        }
    }
}

/// The state once a call site is known to reach a function.
pub open spec fn called(a: RunV, cs: SiteV, callee: FnId) -> RunV {
    RunV {
        resolved: a.resolved.insert(cs.id.0, list_of(a.resolved, cs.id.0).push(callee)),
        edges: a.edges.push(indirect_edge(cs.id.0, cs.caller, callee)),
        ..a
    }
}

pub proof fn called_grows(a: RunV, cs: SiteV, callee: FnId, loaded: Set<u32>)
    requires
        run_sound(a, loaded),
    ensures
        run_sound(called(a, cs, callee), loaded),
        run_grown(a, called(a, cs, callee), loaded),
        list_of(called(a, cs, callee).resolved, cs.id.0).contains(callee),
{
    let known = list_of(a.resolved, cs.id.0);
    let e = indirect_edge(cs.id.0, cs.caller, callee);
    let r0 = RunV { edges: a.edges.push(e), ..a };
    with_edge_grows(a, r0, e, loaded);
    let r1 = called(a, cs, callee);
    assert forall|k: u32, f: FnId| #[trigger]
        list_of(r1.resolved, k).contains(f) <==> list_of(a.resolved, k).contains(f) || (k
            == cs.id.0 && f == callee) by {
        push_holds(known, callee, f);
    }
    assert forall|k: u32, f: FnId| #[trigger] list_of(r1.resolved, k).contains(f) implies shown(
        r1.edges,
        k,
        f,
    ) by {
        if list_of(a.resolved, k).contains(f) {
            assert(list_of(r0.resolved, k).contains(f));
            assert(shown(r0.edges, k, f));
        } else {
            assert(r1.edges.contains(indirect_edge(k, cs.caller, f)));
        }
    }
    assert(run_grown(r0, r1, loaded)) by {
        run_refl(r0, loaded);
    }
    run_trans(a, r0, r1, loaded);
}

pub proof fn with_callee_grows(
    a: RunV,
    p: ProgramV,
    models: Seq<ModelV>,
    cs: SiteV,
    callee: FnId,
    loaded: Set<u32>,
)
    requires
        run_sound(a, loaded),
    ensures
        run_sound(a.with_callee(p, models, cs, callee), loaded),
        run_grown(a, a.with_callee(p, models, cs, callee), loaded),
        list_of(a.with_callee(p, models, cs, callee).resolved, cs.id.0).contains(callee),
{
    run_refl(a, loaded);
    let known = list_of(a.resolved, cs.id.0);
    if !known.contains(callee) {
        let r1 = called(a, cs, callee);
        called_grows(a, cs, callee, loaded);
        let r2 = r1.wired_to(p, cs, callee);
        wired_to_grows(r1, p, cs, callee, loaded);
        let r3 = r2.with_returns(p, models, cs, callee);
        with_returns_grows(r2, p, models, cs, callee, loaded);
        run_trans(a, r1, r2, loaded);
        run_trans(a, r2, r3, loaded);
        assert(list_of(r2.resolved, cs.id.0).contains(callee));
        assert(list_of(r3.resolved, cs.id.0).contains(callee));
        match p.symbols.function(callee) {
            Some(f) => {
                modeled_grows(r3, models, cs, f.name, loaded);
                run_trans(a, r3, r3.modeled(models, cs, f.name), loaded);
            },
            None => {},
        }
    }
}

pub proof fn with_callees_grows(
    a: RunV,
    p: ProgramV,
    models: Seq<ModelV>,
    cs: SiteV,
    callees: Seq<FnId>,
    n: int,
    loaded: Set<u32>,
)
    requires
        run_sound(a, loaded),
        0 <= n <= callees.len(),
    ensures
        ({
            let b = a.with_callees(p, models, cs, callees, n);
            &&& run_sound(b, loaded)
            &&& run_grown(a, b, loaded)
            &&& forall|i: int|
                0 <= i < n ==> list_of(b.resolved, cs.id.0).contains(#[trigger] callees[i])
        }),
    decreases n,
{
    if n <= 0 {
        run_refl(a, loaded);
    } else {
        with_callees_grows(a, p, models, cs, callees, n - 1, loaded);
        let r = a.with_callees(p, models, cs, callees, n - 1);
        let b = a.with_callees(p, models, cs, callees, n);
        with_callee_grows(r, p, models, cs, callees[n - 1], loaded);
        run_trans(a, r, b, loaded);
        assert forall|i: int| 0 <= i < n implies list_of(b.resolved, cs.id.0).contains(
            #[trigger] callees[i],
        ) by {
            if i < n - 1 {
                assert(list_of(r.resolved, cs.id.0).contains(callees[i]));
            }
        }
    }
}

/// What a call reaches by one of the functions that its target has gained.
proof fn reached_holds(a: RunV, p: ProgramV, delta: Seq<u32>, k: int, j: int, g: FnId)
    requires
        0 <= j < k <= delta.len(),
        a.pag.function_at(LocId(delta[j])) is Some,
        p.reached(a.pag.function_at(LocId(delta[j]))->0).contains(g),
    ensures
        a.reached(p, delta, k).contains(g),
    decreases k,
{
    if j == k - 1 {
        let more = p.reached(a.pag.function_at(LocId(delta[j]))->0);
        let before = a.reached(p, delta, k - 1);
        let i = choose|i: int| 0 <= i < more.len() && more[i] == g;
        assert((before + more)[before.len() + i] == g);
    } else {
        reached_holds(a, p, delta, k - 1, j, g);
        let before = a.reached(p, delta, k - 1);
        let i = choose|i: int| 0 <= i < before.len() && before[i] == g;
        match a.pag.function_at(LocId(delta[k - 1])) {
            Some(f) => {
                assert((before + p.reached(f))[i] == g);
            },
            None => {},
        }
    }
}

/// Calls through a pointer: each reaches the functions that the pointer has
/// gained.
pub proof fn with_indirect_grows(
    a: RunV,
    look: LookV,
    sites: Seq<CallSiteId>,
    n: int,
    loaded: Set<u32>,
)
    requires
        run_sound(a, loaded),
        0 <= n <= sites.len(),
    ensures
        ({
            let b = a.with_indirect(look, sites, n);
            &&& run_sound(b, loaded)
            &&& run_grown(a, b, loaded)
            &&& forall|i: int, l: u32, g: FnId|
                0 <= i < n && look.p.site(#[trigger] sites[i]) is Some && #[trigger]
                look.delta.contains(l) && a.pag.function_at(LocId(l)) is Some && #[trigger]
                look.p.reached(a.pag.function_at(LocId(l))->0).contains(g) ==> list_of(
                    b.resolved,
                    look.p.site(sites[i])->0.id.0,
                ).contains(g)
        }),
    decreases n,
{
    if n <= 0 {
        run_refl(a, loaded);
    } else {
        with_indirect_grows(a, look, sites, n - 1, loaded);
        let r = a.with_indirect(look, sites, n - 1);
        let b = a.with_indirect(look, sites, n);
        run_refl(r, loaded);
        let callees = r.reached(look.p, look.delta, look.delta.len() as int);
        match look.p.site(sites[n - 1]) {
            Some(cs) => {
                with_callees_grows(
                    r,
                    look.p,
                    look.models,
                    cs,
                    callees,
                    callees.len() as int,
                    loaded,
                );
            },
            None => {},
        }
        run_trans(a, r, b, loaded);
        assert forall|i: int, l: u32, g: FnId|
            0 <= i < n && look.p.site(#[trigger] sites[i]) is Some && #[trigger] look.delta.contains(
                l,
            ) && a.pag.function_at(LocId(l)) is Some && #[trigger] look.p.reached(
                a.pag.function_at(LocId(l))->0,
            ).contains(g) implies list_of(b.resolved, look.p.site(sites[i])->0.id.0).contains(
            g,
        ) by {
            let cs = look.p.site(sites[i])->0;
            if i < n - 1 {
                assert(list_of(r.resolved, cs.id.0).contains(g));
            } else {
                let j = choose|j: int| 0 <= j < look.delta.len() && look.delta[j] == l;
                assert(r.pag.function_at(LocId(l)) == a.pag.function_at(LocId(l)));
                reached_holds(r, look.p, look.delta, look.delta.len() as int, j, g);
                let k = choose|k: int| 0 <= k < callees.len() && callees[k] == g;
                assert(list_of(b.resolved, cs.id.0).contains(callees[k]));
            }
        }
    }
}

} // verus!
