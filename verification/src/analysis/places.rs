//! Whatever stands for a place in a graph stands for one that the graph has.

use crate::analysis::constraints::{ConstraintKind, LocKind, LocV};
use crate::analysis::laws::solved_graph;
use crate::analysis::models::{model_for_callee, model_of, ModelV};
use crate::analysis::pag::{
    arg_at, list_of, lookup_arg, place_kind, with_listed, ExpandV, PagNode, PagNodeKind, PagV,
    FIELD_LOC_DEPTH_CAP,
};
use crate::analysis::progress::{ensured_var_loc_extends, inner_extends, with_return_model_extends};
use crate::collections::{has_key, key_position, value_of, with_entry};
use crate::entries::key_found;
use crate::ir::flow::FlowV;
use crate::ir::ids::{CallSiteId, FieldId, FnId, LocId, PagNodeId, TypeId, VarId};
use crate::ir::program::ProgramV;
use crate::ir::symbol::{FnV, SiteV, VarV};
use vstd::prelude::*;

verus! {

/// Whether a node is among those of the first `len` places, if it is that of a
/// place.
pub open spec fn node_placed(n: PagNode, len: nat) -> bool {
    match n.kind {
        PagNodeKind::Loc(l) => l.0 < len,
        _ => true,
    }
}

/// Whether a place that is given is among the first `len`.
pub open spec fn place_below(l: Option<LocId>, len: nat) -> bool {
    match l {
        Some(x) => x.0 < len,
        None => true,
    }
}

/// Whether entries lead to the first `len` places.
pub open spec fn entries_placed(entries: Seq<(u32, u32)>, len: nat) -> bool {
    forall|i: int| 0 <= i < entries.len() ==> (#[trigger] entries[i]).1 < len
}

/// Whether a map leads to the first `len` places.
pub open spec fn map_placed<K>(m: Map<K, u32>, len: nat) -> bool {
    forall|k: K| #[trigger] m.contains_key(k) ==> m[k] < len
}

/// Whether everything in a graph that stands for a place stands for one that
/// the graph has, and every place has its number.
#[verifier::opaque]
pub open spec fn placed(g: PagV) -> bool {
    let len = g.locations.len();
    &&& forall|i: int| 0 <= i < len && i <= u32::MAX ==> (#[trigger] g.locations[i]).id.0 == i
    &&& forall|i: int| 0 <= i < g.nodes.len() ==> node_placed(#[trigger] g.nodes[i], len)
    &&& entries_placed(g.fn_locations, len)
    &&& entries_placed(g.var_location, len)
    &&& entries_placed(g.field_loc_to_summary, len)
    &&& map_placed(g.field_loc, len)
    &&& map_placed(g.field_summary, len)
    &&& map_placed(g.string_locs, len)
    &&& forall|k: u32, l: LocId| #[trigger]
        list_of(g.array_fn_members, k).contains(l) ==> l.0 < len
}

/// A place of a graph has the number that it is found by.
pub proof fn place_has_its_number(g: PagV, l: LocId)
    requires
        placed(g),
    ensures
        match g.location(l) {
            Some(loc) => loc.id == l,
            None => true,
        },
{
    reveal(placed);
}

/// Two graphs with the same nodes and the same places.
pub proof fn placed_same(a: PagV, b: PagV)
    requires
        placed(a),
        b.nodes == a.nodes,
        b.locations == a.locations,
        b.fn_locations == a.fn_locations,
        b.var_location == a.var_location,
        b.field_loc_to_summary == a.field_loc_to_summary,
        b.field_loc == a.field_loc,
        b.field_summary == a.field_summary,
        b.string_locs == a.string_locs,
        b.array_fn_members == a.array_fn_members,
    ensures
        placed(b),
{
    reveal(placed);
}

/// One more node, which is not that of a place.
pub proof fn with_node_placed(a: PagV, kind: PagNodeKind)
    requires
        placed(a),
        !(kind is Loc),
    ensures
        placed(a.with_node(kind)),
{
    reveal(placed);
}

pub proof fn with_var_placed(a: PagV, v: VarId)
    requires
        placed(a),
    ensures
        placed(a.with_var(v)),
{
    if !has_key(a.var_node, v.0) {
        with_node_placed(a, PagNodeKind::Var(v));
        placed_same(a.with_node(PagNodeKind::Var(v)), a.with_var(v));
    }
}

/// A new place, and a node for it.
pub proof fn with_loc_placed(a: PagV, loc: LocV)
    requires
        placed(a),
        loc.id == a.next_loc(),
    ensures
        placed(a.with_loc(loc)),
        loc.id.0 < a.with_loc(loc).locations.len(),
{
    reveal(placed);
    let b = a.with_loc(loc);
    assert(loc.id.0 <= a.locations.len());
    assert forall|i: int| 0 <= i < b.nodes.len() implies node_placed(
        #[trigger] b.nodes[i],
        b.locations.len(),
    ) by {
        if i < a.nodes.len() {
            assert(b.nodes[i] == a.nodes[i]);
            assert(node_placed(a.nodes[i], a.locations.len()));
        }
    }
}

proof fn entry_placed(entries: Seq<(u32, u32)>, k: u32, v: u32, len: nat)
    requires
        entries_placed(entries, len),
        v < len,
    ensures
        entries_placed(with_entry(entries, k, v), len),
{
    let t = with_entry(entries, k, v);
    key_found(entries, k, 0);
    assert forall|i: int| 0 <= i < t.len() implies (#[trigger] t[i]).1 < len by {
        if i < entries.len() && t[i] != (k, v) {
            assert(t[i] == entries[i]);
        }
    }
}

/// What entries that lead to the first places have under a key is one of them.
proof fn value_placed(entries: Seq<(u32, u32)>, k: u32, len: nat)
    requires
        entries_placed(entries, len),
        has_key(entries, k),
    ensures
        value_of(entries, k) < len,
{
    key_found(entries, k, 0);
    assert(entries[key_position(entries, k, 0)].1 < len);
}

/// The place that a node is that of.
pub proof fn node_is_placed(g: PagV, n: PagNodeId)
    requires
        placed(g),
    ensures
        match g.kind_of(n) {
            Some(PagNodeKind::Loc(l)) => l.0 < g.locations.len(),
            _ => true,
        },
{
    reveal(placed);
    if n.0 < g.nodes.len() {
        assert(node_placed(g.nodes[n.0 as int], g.locations.len()));
    }
}

/// The places of a function, of a variable and of the field of a type.
pub proof fn found_are_placed(g: PagV, f: FnId, v: VarId, l: LocId)
    requires
        placed(g),
    ensures
        place_below(g.fn_location(f), g.locations.len()),
        place_below(g.location_of_var(v), g.locations.len()),
        place_below(g.summary_of(l), g.locations.len()),
{
    reveal(placed);
    let len = g.locations.len();
    if has_key(g.fn_locations, f.0) {
        value_placed(g.fn_locations, f.0, len);
    }
    if has_key(g.var_location, v.0) {
        value_placed(g.var_location, v.0, len);
    }
    if has_key(g.field_loc_to_summary, l.0) {
        value_placed(g.field_loc_to_summary, l.0, len);
    }
}

/// The functions among the initializers of an array.
pub proof fn members_are_placed(g: PagV, k: u32, i: int)
    requires
        placed(g),
        0 <= i < list_of(g.array_fn_members, k).len(),
    ensures
        list_of(g.array_fn_members, k)[i].0 < g.locations.len(),
{
    reveal(placed);
    let list = list_of(g.array_fn_members, k);
    assert(list.contains(list[i]));
}

/// A variable is given a place.
pub proof fn var_entry_placed(a: PagV, k: u32, l: u32)
    requires
        placed(a),
        l < a.locations.len(),
    ensures
        placed(PagV { var_location: with_entry(a.var_location, k, l), ..a }),
{
    reveal(placed);
    entry_placed(a.var_location, k, l, a.locations.len());
}

/// The place of a field is given that of the field of the type.
pub proof fn summary_entry_placed(a: PagV, k: u32, l: u32)
    requires
        placed(a),
        l < a.locations.len(),
    ensures
        placed(PagV { field_loc_to_summary: with_entry(a.field_loc_to_summary, k, l), ..a }),
{
    reveal(placed);
    entry_placed(a.field_loc_to_summary, k, l, a.locations.len());
}

/// A field of a type is given a place.
pub proof fn summary_placed(a: PagV, k: (u32, u32), l: u32)
    requires
        placed(a),
        l < a.locations.len(),
    ensures
        placed(PagV { field_summary: a.field_summary.insert(k, l), ..a }),
{
    reveal(placed);
}

/// A field of an object is given a place.
pub proof fn field_placed(a: PagV, k: (u32, u32), l: u32, depth: Map<u32, u8>)
    requires
        placed(a),
        l < a.locations.len(),
    ensures
        placed(PagV { field_loc: a.field_loc.insert(k, l), field_depth: depth, ..a }),
{
    reveal(placed);
}

pub proof fn with_place_placed(a: PagV, v: VarV)
    requires
        placed(a),
    ensures
        placed(a.with_place(v)),
{
    let loc = LocV {
        id: a.next_loc(),
        kind: place_kind(v.storage),
        var: Some(v.id),
        fn_id: v.fn_id,
        field: None,
        type_id: v.type_id,
        desc: v.name,
    };
    with_loc_placed(a, loc);
    var_entry_placed(a.with_loc(loc), v.id.0, loc.id.0);
}

pub proof fn with_function_placed(a: PagV, loc: LocV, f: FnId)
    requires
        placed(a),
        loc.id == a.next_loc(),
    ensures
        placed(
            PagV {
                fn_locations: with_entry(a.with_loc(loc).fn_locations, f.0, loc.id.0),
                ..a.with_loc(loc)
            },
        ),
{
    with_loc_placed(a, loc);
    reveal(placed);
    let q = a.with_loc(loc);
    entry_placed(q.fn_locations, f.0, loc.id.0, q.locations.len());
}

pub proof fn interned_string_placed(a: PagV, p: ProgramV, value: Seq<char>)
    requires
        placed(a),
    ensures
        placed(a.interned_string(p, value).0),
        a.interned_string(p, value).1.0 < a.interned_string(p, value).0.locations.len(),
{
    if a.string_locs.contains_key(value) {
        reveal(placed);
    } else {
        with_loc_placed(
            a,
            LocV {
                id: a.next_loc(),
                kind: LocKind::StringLit,
                var: None,
                fn_id: None,
                field: None,
                type_id: p.char_type(0),
                desc: value,
            },
        );
        reveal(placed);
    }
}

pub proof fn with_member_placed(a: PagV, k: u32, l: LocId)
    requires
        placed(a),
        l.0 < a.locations.len(),
    ensures
        placed(PagV { array_fn_members: with_listed(a.array_fn_members, k, l), ..a }),
{
    reveal(placed);
    let b = PagV { array_fn_members: with_listed(a.array_fn_members, k, l), ..a };
    assert forall|j: u32, x: LocId| #[trigger]
        list_of(b.array_fn_members, j).contains(x) implies x.0 < b.locations.len() by {
        if j == k {
            let list = list_of(b.array_fn_members, j);
            let i = choose|i: int| 0 <= i < list.len() && list[i] == x;
            if i < list_of(a.array_fn_members, j).len() {
                assert(list_of(a.array_fn_members, j)[i] == x);
                assert(list_of(a.array_fn_members, j).contains(x));
            }
        } else {
            assert(list_of(a.array_fn_members, j).contains(x));
        }
    }
}

pub proof fn ensured_summary_placed(
    a: PagV,
    p: ProgramV,
    owner: TypeId,
    field: FieldId,
    field_type: TypeId,
    name: Seq<char>,
)
    requires
        placed(a),
    ensures
        ({
            let (q, l) = a.ensured_summary(p, owner, field, field_type, name);
            &&& placed(q)
            &&& l.0 < q.locations.len()
            &&& a.locations.len() <= q.locations.len()
        }),
{
    let k = (owner.0, field.0);
    if a.field_summary.contains_key(k) {
        reveal(placed);
    } else {
        with_loc_placed(
            a,
            LocV {
                id: a.next_loc(),
                kind: LocKind::FieldSummary,
                var: None,
                fn_id: None,
                field: Some(field),
                type_id: field_type,
                desc: "summary:"@ + p.owner_name(owner) + ("."@ + name),
            },
        );
        reveal(placed);
    }
}

pub proof fn with_field_placed(
    a: PagV,
    parent: LocId,
    field: FieldId,
    field_type: TypeId,
    name: Seq<char>,
)
    requires
        placed(a),
    ensures
        placed(a.with_field(parent, field, field_type, name)),
        a.next_loc().0 < a.with_field(parent, field, field_type, name).locations.len(),
{
    with_loc_placed(
        a,
        LocV {
            id: a.next_loc(),
            kind: LocKind::Field,
            var: a.locations[parent.0 as int].var,
            fn_id: None,
            field: Some(field),
            type_id: field_type,
            desc: name,
        },
    );
    reveal(placed);
}

pub proof fn ensured_field_placed(a: PagV, p: ProgramV, parent: LocId, field: FieldId)
    requires
        placed(a),
    ensures
        ({
            let (q, l) = a.ensured_field(p, parent, field);
            &&& placed(q)
            &&& place_below(l, q.locations.len())
        }),
{
    let k = (parent.0, field.0);
    if a.field_loc.contains_key(k) {
        reveal(placed);
    } else {
        match a.object_type(p, parent) {
            Some(owner) => {
                match p.types.field(owner, field) {
                    Some(fl) => {
                        if a.depth(parent) >= FIELD_LOC_DEPTH_CAP {
                            ensured_summary_placed(a, p, owner, field, fl.type_id, fl.name);
                        } else {
                            let b = a.with_field(parent, field, fl.type_id, fl.name);
                            with_field_placed(a, parent, field, fl.type_id, fl.name);
                            ensured_summary_placed(b, p, owner, field, fl.type_id, fl.name);
                            let (q, s) = b.ensured_summary(p, owner, field, fl.type_id, fl.name);
                            summary_entry_placed(q, a.next_loc().0, s.0);
                        }
                    },
                    None => {},
                }
            },
            None => {},
        }
    }
}

pub proof fn ensured_var_summary_placed(a: PagV, p: ProgramV, v: VarId, field: FieldId)
    requires
        placed(a),
    ensures
        ({
            let (q, l) = a.ensured_var_summary(p, v, field);
            &&& placed(q)
            &&& place_below(l, q.locations.len())
        }),
{
    match p.symbols.variable(v) {
        Some(x) => {
            match p.aggregate_behind(x.type_id, 6) {
                Some(owner) => {
                    match p.types.field(owner, field) {
                        Some(fl) => {
                            ensured_summary_placed(a, p, owner, field, fl.type_id, fl.name);
                        },
                        None => {},
                    }
                },
                None => {},
            }
        },
        None => {},
    }
}

proof fn with_constraint_placed(a: PagV, kind: ConstraintKind, dst: PagNodeId, src: PagNodeId)
    requires
        placed(a),
    ensures
        placed(a.with_constraint(kind, dst, src)),
{
    placed_same(a, a.with_constraint(kind, dst, src));
}

proof fn with_addr_of_placed(a: PagV, dst: PagNodeId, l: LocId)
    requires
        placed(a),
    ensures
        placed(a.with_addr_of(dst, l)),
{
    placed_same(a, a.with_addr_of(dst, l));
}

proof fn with_variables_placed(a: PagV, vars: Seq<VarV>, n: int)
    requires
        placed(a),
    ensures
        placed(a.with_variables(vars, n)),
    decreases n,
{
    if n > 0 {
        with_variables_placed(a, vars, n - 1);
        let q = a.with_variables(vars, n - 1);
        with_var_placed(q, vars[n - 1].id);
        with_place_placed(q.with_var(vars[n - 1].id), vars[n - 1]);
    }
}

pub proof fn with_functions_placed(a: PagV, fns: Seq<FnV>, n: int)
    requires
        placed(a),
    ensures
        placed(a.with_functions(fns, n)),
    decreases n,
{
    if n > 0 {
        with_functions_placed(a, fns, n - 1);
        let q = a.with_functions(fns, n - 1);
        let f = fns[n - 1];
        with_function_placed(
            q,
            LocV {
                id: q.next_loc(),
                kind: LocKind::Function,
                var: None,
                fn_id: Some(f.id),
                field: None,
                type_id: f.return_type,
                desc: f.name,
            },
            f.id,
        );
    }
}

proof fn with_pair_placed(a: PagV, kind: ConstraintKind, dst: VarId, src: VarId)
    requires
        placed(a),
    ensures
        placed(a.with_pair(kind, dst, src)),
{
    let q = a.with_var(dst);
    with_var_placed(a, dst);
    with_var_placed(q, src);
    with_constraint_placed(
        q.with_var(src),
        kind,
        a.var_node_after(dst),
        q.var_node_after(src),
    );
}

proof fn with_flow_placed(a: PagV, p: ProgramV, models: Seq<ModelV>, flow: FlowV)
    requires
        placed(a),
    ensures
        placed(a.with_flow(p, models, flow)),
{
    match flow {
        FlowV::Copy { dst, src } => {
            with_pair_placed(a, ConstraintKind::Copy, dst, src);
        },
        FlowV::AddrOfVar { dst, src } => {
            let n = a.var_node_after(dst);
            with_var_placed(a, dst);
            ensured_var_loc_extends(a.with_var(dst), p, src);
            let (q, l) = a.with_var(dst).ensured_var_loc(p, src);
            match l {
                Some(loc) => {
                    with_addr_of_placed(q, n, loc);
                },
                None => {},
            }
        },
        FlowV::AddrOfFn { dst, callee } => {
            let n = a.var_node_after(dst);
            let q = a.with_var(dst);
            with_var_placed(a, dst);
            match q.fn_location(callee) {
                Some(loc) => {
                    with_addr_of_placed(q, n, loc);
                },
                None => {},
            }
        },
        FlowV::Load { dst, src } => {
            with_pair_placed(a, ConstraintKind::Load, dst, src);
        },
        FlowV::Store { dst, src } => {
            with_pair_placed(a, ConstraintKind::Store, dst, src);
        },
        FlowV::GepField { dst, base, field, field_name } => {
            let q = a.with_var(dst);
            with_var_placed(a, dst);
            with_var_placed(q, base);
            placed_same(q.with_var(base), a.with_flow(p, models, flow));
        },
        FlowV::ArrayFnMember { array, callee } => {
            let n = a.var_node_after(array);
            let q = a.with_var(array);
            with_var_placed(a, array);
            match q.fn_location(callee) {
                Some(loc) => {
                    found_are_placed(q, callee, VarId(0), LocId(0));
                    with_addr_of_placed(q, n, loc);
                    with_member_placed(q.with_addr_of(n, loc), array.0, loc);
                },
                None => {},
            }
        },
        FlowV::CallReturn { dst, callee_name } => {
            let n = a.var_node_after(dst);
            let candidates = p.symbols.candidates(callee_name, p.file_of_var(dst));
            let e = ExpandV { pag: a.with_var(dst), visited: Set::empty(), applied: false };
            with_var_placed(a, dst);
            let fuel = p.fn_returns.len() + 1;
            inner_extends(e, p, models, n, candidates, 0, fuel);
            let after = e.inner(p, models, n, candidates, 0, fuel);
            match model_of(models, callee_name, 0) {
                Some(m) => {
                    with_return_model_extends(
                        after.pag,
                        n,
                        m,
                        p.first_params(candidates, 0),
                        m.effects.len() as int,
                    );
                },
                None => {},
            }
        },
        FlowV::CallReturnIndirect { dst, callee_var } => {
            with_var_placed(a, dst);
            placed_same(a.with_var(dst), a.with_flow(p, models, flow));
        },
        FlowV::NewHeap { dst } => {
            let q = a.with_var(dst);
            with_var_placed(a, dst);
            let ty = match p.symbols.variable(dst) {
                Some(v) => v.type_id,
                None => TypeId(0),
            };
            with_loc_placed(
                q,
                LocV {
                    id: q.next_loc(),
                    kind: LocKind::Heap,
                    var: None,
                    fn_id: None,
                    field: None,
                    type_id: ty,
                    desc: "new heap"@,
                },
            );
            with_addr_of_placed(
                q.with_heap(ty, "new heap"@),
                a.var_node_after(dst),
                q.next_loc(),
            );
        },
        FlowV::StringConst { dst, value } => {
            let (q, l) = a.with_var(dst).interned_string(p, value);
            with_var_placed(a, dst);
            interned_string_placed(a.with_var(dst), p, value);
            with_addr_of_placed(q, a.var_node_after(dst), l);
        },
    }
}

proof fn with_flows_placed(a: PagV, p: ProgramV, models: Seq<ModelV>, n: int)
    requires
        placed(a),
    ensures
        placed(a.with_flows(p, models, n)),
    decreases n,
{
    if n > 0 {
        with_flows_placed(a, p, models, n - 1);
        with_flow_placed(a.with_flows(p, models, n - 1), p, models, p.flow[n - 1]);
    }
}

proof fn with_lookups_placed(a: PagV, sites: Seq<SiteV>, models: Seq<ModelV>, n: int)
    requires
        placed(a),
    ensures
        placed(a.with_lookups(sites, models, n)),
    decreases n,
{
    if n > 0 {
        with_lookups_placed(a, sites, models, n - 1);
        let q = a.with_lookups(sites, models, n - 1);
        let cs = sites[n - 1];
        match model_for_callee(models, cs.callee_name) {
            Some(m) => {
                match lookup_arg(m.effects, 0) {
                    Some(at) => {
                        match (cs.return_dst, arg_at(cs.var_args, at, 0)) {
                            (Some(dst), Some(name)) => {
                                with_pair_placed(q, ConstraintKind::Dlsym, dst, name);
                            },
                            _ => {},
                        }
                    },
                    None => {},
                }
            },
            None => {},
        }
    }
}

proof fn with_target_placed(a: PagV, cs: CallSiteId)
    requires
        placed(a),
    ensures
        placed(a.with_target(cs)),
{
    if !has_key(a.call_targets, cs.0) {
        with_node_placed(a, PagNodeKind::CallTarget(cs));
        placed_same(a.with_node(PagNodeKind::CallTarget(cs)), a.with_target(cs));
    }
}

proof fn with_calls_placed(a: PagV, p: ProgramV, n: int)
    requires
        placed(a),
    ensures
        placed(a.with_calls(p, n)),
    decreases n,
{
    if n > 0 {
        with_calls_placed(a, p, n - 1);
        let r = a.with_calls(p, n - 1);
        let b = a.with_calls(p, n);
        let cs = p.symbols.call_sites[n - 1];
        let q = r.with_target(cs.id);
        with_target_placed(r, cs.id);
        match cs.callee_var {
            Some(v) => {
                with_var_placed(q, v);
                if !cs.is_direct {
                    placed_same(q.with_var(v), b);
                }
            },
            None => {
                match p.var_in_fn(cs.callee_name, cs.caller) {
                    Some(v) => {
                        with_var_placed(q, v);
                        if !cs.is_direct && p.symbols.resolve(cs.callee_name) is None {
                            placed_same(q.with_var(v), b);
                        }
                    },
                    None => {},
                }
            },
        }
    }
}

proof fn with_indices_placed(a: PagV, from: int, to: int)
    requires
        placed(a),
    ensures
        placed(a.with_indices(from, to)),
    decreases to - from,
{
    if to > from {
        with_indices_placed(a, from, to - 1);
        placed_same(a.with_indices(from, to - 1), a.with_indices(from, to));
    }
}

proof fn with_call_indices_placed(a: PagV, sites: Seq<SiteV>, n: int)
    requires
        placed(a),
    ensures
        placed(a.with_call_indices(sites, n)),
    decreases n,
{
    if n > 0 {
        with_call_indices_placed(a, sites, n - 1);
        placed_same(a.with_call_indices(sites, n - 1), a.with_call_indices(sites, n));
    }
}

pub proof fn empty_is_placed()
    ensures
        placed(PagV::empty()),
{
    reveal(placed);
    let e = PagV::empty();
    assert forall|k: u32, l: LocId| !(#[trigger] list_of(e.array_fn_members, k).contains(l)) by {
        assert(list_of(e.array_fn_members, k) =~= Seq::<LocId>::empty());
    }
}

/// Whatever stands for a place in the graph of a program stands for one that
/// the graph has, and every place has its number.
pub proof fn graphs_are_placed(p: ProgramV, models: Seq<ModelV>)
    ensures
        placed(p.graph(models)),
        placed(solved_graph(p, models)),
{
    let sites = p.symbols.call_sites;
    let vars = p.symbols.variables;
    let fns = p.symbols.functions;
    let e = PagV::empty();
    empty_is_placed();
    let a = e.with_variables(vars, vars.len() as int);
    with_variables_placed(e, vars, vars.len() as int);
    let b = a.with_functions(fns, fns.len() as int);
    with_functions_placed(a, fns, fns.len() as int);
    let c = b.with_flows(p, models, p.flow.len() as int);
    with_flows_placed(b, p, models, p.flow.len() as int);
    let d = c.with_lookups(sites, models, sites.len() as int);
    with_lookups_placed(c, sites, models, sites.len() as int);
    let f = d.with_calls(p, sites.len() as int);
    with_calls_placed(d, p, sites.len() as int);
    let g = f.with_indices(0, f.constraints.len() as int);
    with_indices_placed(f, 0, f.constraints.len() as int);
    with_call_indices_placed(g, sites, sites.len() as int);
    placed_same(g.with_call_indices(sites, sites.len() as int), p.graph(models));
    placed_same(p.graph(models), solved_graph(p, models));
}

} // verus!
