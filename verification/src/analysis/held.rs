//! Nodes and places hold only places that the graph has.

use crate::analysis::constraints::{CallGraphEdge, ConstraintKind, ConstraintV, ResolutionKind};
use crate::analysis::growth::{fresh_holds, holds, same_contents, store_targets, with_members_hold};
use crate::analysis::laws::{
    before_calls, before_calls_sound, loaded_in, may_hold, on_track, popped, start_keeps,
    step_keeps, taken_facts,
};
use crate::analysis::models::{model_of, Effect, ModelV};
use crate::analysis::pag::{arg_at, list_of, PagNodeKind, PagV};
use crate::analysis::places::{
    ensured_field_placed, ensured_var_summary_placed, found_are_placed, members_are_placed,
    node_is_placed, place_below, place_has_its_number, placed,
};
use crate::analysis::progress::{
    called, called_grows, extended, run_grown, run_sound, run_with_st, wired_to_grows,
    with_addresses_grows, with_callees_grows, with_copies_grows, with_copy_grows,
    with_direct_calls_grows, with_direct_grows, with_edge_grows, with_effect_grows,
    with_effects_grows, with_first_geps_grows, with_gep_locs_grows, with_geps_grows,
    with_indirect_grows, with_loads_grows, with_lookups_grows, with_object_field_grows,
    with_param_grows, with_params_grows, with_returns_grows, with_stores_grows,
    with_var_summary_grows,
};
use crate::analysis::solver::{fn_arg_at, loc_numbers, node_numbers, with_value, LookV, RunV};
use crate::analysis::state::{fresh, with_members, SolverV};
use crate::ir::ids::{CallSiteId, FieldId, FnId, LocId, PagNodeId, VarId};
use crate::ir::program::ProgramV;
use crate::ir::symbol::{FnV, SiteV, VarV};
use vstd::prelude::*;

verus! {

/// Whether all of a list are among the first `len` places.
pub open spec fn below(locs: Seq<u32>, len: nat) -> bool {
    forall|i: int| 0 <= i < locs.len() ==> #[trigger] locs[i] < len
}

/// Whether nodes and places hold only the first `len` places.
pub open spec fn within(st: SolverV, len: nat) -> bool {
    &&& forall|n: u32| below(#[trigger] st.pts_of(n), len)
    &&& forall|m: u32| below(#[trigger] st.memory_of(m), len)
}

/// Whether a state of a run speaks only of places that its graph has.
pub open spec fn inside(r: RunV) -> bool {
    placed(r.pag) && within(r.st, r.pag.locations.len())
}

/// Two states in which nodes and places hold the same.
pub open spec fn same_held(a: SolverV, b: SolverV) -> bool {
    b.pts == a.pts && b.memory == a.memory
}

proof fn below_of(locs: Seq<u32>, len: nat)
    requires
        forall|x: u32| #[trigger] locs.contains(x) ==> x < len,
    ensures
        below(locs, len),
{
    assert forall|i: int| 0 <= i < locs.len() implies #[trigger] locs[i] < len by {
        assert(locs.contains(locs[i]));
    }
}

proof fn within_more(st: SolverV, a: nat, b: nat)
    requires
        within(st, a),
        a <= b,
    ensures
        within(st, b),
{
    assert forall|n: u32| below(#[trigger] st.pts_of(n), b) by {
        assert(below(st.pts_of(n), a));
    }
    assert forall|m: u32| below(#[trigger] st.memory_of(m), b) by {
        assert(below(st.memory_of(m), a));
    }
}

/// A later state with the same contents.
proof fn inside_same(a: RunV, b: RunV, loaded: Set<u32>)
    requires
        inside(a),
        run_grown(a, b, loaded),
        same_held(a.st, b.st),
    ensures
        inside(b),
{
    within_more(a.st, a.pag.locations.len(), b.pag.locations.len());
    assert forall|n: u32| below(#[trigger] b.st.pts_of(n), b.pag.locations.len()) by {
        assert(b.st.pts_of(n) == a.st.pts_of(n));
    }
    assert forall|m: u32| below(#[trigger] b.st.memory_of(m), b.pag.locations.len()) by {
        assert(b.st.memory_of(m) == a.st.memory_of(m));
    }
}

proof fn held_same(a: SolverV, n: u32, locs: Seq<u32>, k: int)
    ensures
        same_held(a, a.held(n, locs, k)),
    decreases k,
{
    if k > 0 {
        held_same(a, n, locs, k - 1);
    }
}

proof fn recorded_same(a: SolverV, n: u32, locs: Seq<u32>, k: int)
    ensures
        same_held(a, a.recorded(n, locs, k)),
    decreases k,
{
    if k > 0 {
        recorded_same(a, n, locs, k - 1);
    }
}

proof fn touched_same(
    a: SolverV,
    loc: u32,
    nodes: Seq<u32>,
    load_src: Map<u32, Seq<usize>>,
    k: int,
)
    ensures
        same_held(a, a.touched(loc, nodes, load_src, k)),
    decreases k,
{
    if k > 0 {
        touched_same(a, loc, nodes, load_src, k - 1);
        recorded_same(a.touched(loc, nodes, load_src, k - 1), nodes[k - 1], seq![loc], 1);
    }
}

proof fn touched_all_same(a: SolverV, locs: Seq<u32>, load_src: Map<u32, Seq<usize>>, k: int)
    ensures
        same_held(a, a.touched_all(locs, load_src, k)),
    decreases k,
{
    if k > 0 {
        touched_all_same(a, locs, load_src, k - 1);
        let s = a.touched_all(locs, load_src, k - 1);
        let nodes = list_of(s.loc_nodes, locs[k - 1]);
        touched_same(s, locs[k - 1], nodes, load_src, nodes.len() as int);
    }
}

proof fn pushed_all_same(a: SolverV, nodes: Seq<u32>, k: int)
    ensures
        same_held(a, a.pushed_all(nodes, k)),
    decreases k,
{
    if k > 0 {
        pushed_all_same(a, nodes, k - 1);
    }
}

proof fn members_below(s: Seq<u32>, more: Seq<u32>, len: nat)
    requires
        below(s, len),
        below(more, len),
    ensures
        below(with_members(s, more), len),
{
    with_members_hold(s, more);
    let t = with_members(s, more);
    assert forall|x: u32| #[trigger] t.contains(x) implies x < len by {
        if s.contains(x) {
        } else {
            assert(more.contains(x));
        }
    }
    below_of(t, len);
}

proof fn spread_within(a: SolverV, n: u32, locs: Seq<u32>, len: nat)
    requires
        within(a, len),
        below(locs, len),
    ensures
        within(a.spread(n, locs), len),
{
    let known = a.pts_of(n);
    let k = locs.len() as int;
    let news = fresh(known, locs, k);
    let b = a.spread(n, locs);
    if news.len() > 0 {
        fresh_holds(known, locs, k);
        assert(locs.take(k) =~= locs);
        assert forall|x: u32| #[trigger] news.contains(x) implies x < len by {
            assert(locs.take(k).contains(x));
        }
        below_of(news, len);
        members_below(known, news, len);
        let s = SolverV { pts: a.pts.insert(n, with_members(known, news)), ..a };
        held_same(s, n, news, news.len() as int);
        recorded_same(s.held(n, news, news.len() as int), n, news, news.len() as int);
        assert forall|x: u32| below(#[trigger] b.pts_of(x), len) by {
            if x != n {
                assert(b.pts_of(x) == a.pts_of(x));
            }
        }
        assert forall|m: u32| below(#[trigger] b.memory_of(m), len) by {
            assert(b.memory_of(m) == a.memory_of(m));
        }
    }
}

proof fn spread_each_within(a: SolverV, n: u32, locs: Seq<u32>, k: int, len: nat)
    requires
        within(a, len),
        below(locs, len),
        k <= locs.len(),
    ensures
        within(a.spread_each(n, locs, k), len),
    decreases k,
{
    if k > 0 {
        spread_each_within(a, n, locs, k - 1, len);
        spread_within(a.spread_each(n, locs, k - 1), n, seq![locs[k - 1]], len);
    }
}

proof fn let_out_below(a: SolverV, mem: u32, from: int, to: int, len: nat)
    requires
        within(a, len),
        0 <= from,
        to <= a.memory_of(mem).len(),
    ensures
        below(a.let_out(mem, from, to), len),
    decreases to - from,
{
    if to > from {
        let_out_below(a, mem, from, to - 1, len);
        assert(below(a.memory_of(mem), len));
    }
}

proof fn merged_within(a: SolverV, n: u32, mem: u32, len: nat)
    requires
        within(a, len),
    ensures
        within(a.merged(n, mem), len),
{
    let seen = a.seen_of(n, mem) as int;
    let to = a.memory_of(mem).len() as int;
    if to > seen {
        let_out_below(a, mem, seen, to, len);
        let s = a.spread(n, a.let_out(mem, seen, to));
        spread_within(a, n, a.let_out(mem, seen, to), len);
        let b = a.merged(n, mem);
        assert forall|x: u32| below(#[trigger] b.pts_of(x), len) by {
            assert(b.pts_of(x) == s.pts_of(x));
        }
        assert forall|m: u32| below(#[trigger] b.memory_of(m), len) by {
            assert(b.memory_of(m) == s.memory_of(m));
        }
    }
}

proof fn written_within(a: SolverV, l: u32, values: Seq<u32>, len: nat)
    requires
        within(a, len),
        below(values, len),
    ensures
        within(a.written(l, values), len),
{
    let b = a.written(l, values);
    members_below(a.memory_of(l), values, len);
    assert forall|x: u32| below(#[trigger] b.pts_of(x), len) by {
        assert(b.pts_of(x) == a.pts_of(x));
    }
    assert forall|m: u32| below(#[trigger] b.memory_of(m), len) by {
        if m != l {
            assert(b.memory_of(m) == a.memory_of(m));
        }
    }
}

proof fn writable_below(pag: PagV, st: SolverV, l: u32, values: Seq<u32>, n: int, len: nat)
    requires
        below(values, len),
        n <= values.len(),
    ensures
        below(pag.writable(st, l, values, n), len),
        below(pag.non_functions(values, n), len),
    decreases n,
{
    if n > 0 {
        writable_below(pag, st, l, values, n - 1, len);
    }
}

proof fn stored_at_within(
    a: SolverV,
    pag: PagV,
    l: u32,
    values: Seq<u32>,
    own: Option<LocId>,
    len: nat,
)
    requires
        within(a, len),
        below(values, len),
        place_below(own, len),
    ensures
        within(a.stored_at(pag, l, values, own).0, len),
{
    let n = values.len() as int;
    writable_below(pag, a, l, values, n, len);
    let vs = with_value(pag.writable(a, l, values, n), own);
    let s = a.written(l, vs);
    written_within(a, l, vs, len);
    let b = a.stored_at(pag, l, values, own).0;
    match pag.summary_of(LocId(l)) {
        Some(sum) => {
            let ws = with_value(
                if s.lets_functions_in(sum.0) {
                    values
                } else {
                    pag.non_functions(values, n)
                },
                own,
            );
            written_within(s, sum.0, ws, len);
            if b != s.written(sum.0, ws) {
                assert forall|x: u32| below(#[trigger] b.pts_of(x), len) by {
                    assert(b.pts_of(x) == s.pts_of(x));
                }
                assert forall|m: u32| below(#[trigger] b.memory_of(m), len) by {
                    assert(b.memory_of(m) == s.memory_of(m));
                }
            }
        },
        None => {},
    }
}

proof fn stored_within(
    a: SolverV,
    pag: PagV,
    targets: Seq<u32>,
    values: Seq<u32>,
    own: Option<LocId>,
    n: int,
    len: nat,
)
    requires
        within(a, len),
        below(values, len),
        place_below(own, len),
    ensures
        within(a.stored(pag, targets, values, own, n).0, len),
    decreases n,
{
    if n > 0 {
        stored_within(a, pag, targets, values, own, n - 1, len);
        let s = a.stored(pag, targets, values, own, n - 1).0;
        stored_at_within(s, pag, targets[n - 1], values, own, len);
    }
}

proof fn store_within(a: SolverV, pag: PagV, i: usize, given: Option<Seq<u32>>)
    requires
        placed(pag),
        within(a, pag.locations.len()),
    ensures
        within(a.store(pag, i, given), pag.locations.len()),
{
    let len = pag.locations.len();
    let b = a.store(pag, i, given);
    match pag.constraint(i) {
        Some(c) => {
            let values = a.pts_of(c.src.0);
            let own = pag.own_place(c.src);
            assert(place_below(own, len)) by {
                match pag.kind_of(c.src) {
                    Some(PagNodeKind::Var(v)) => {
                        found_are_placed(pag, FnId(0), v, LocId(0));
                    },
                    _ => {},
                }
            }
            if values.len() == 0 && own is None {
            } else {
                let targets = store_targets(a, c.dst.0, given);
                let (s, again) = a.stored(pag, targets, values, own, targets.len() as int);
                stored_within(a, pag, targets, values, own, targets.len() as int, len);
                touched_all_same(s, again, pag.indices.load_src, again.len() as int);
                assert forall|x: u32| below(#[trigger] b.pts_of(x), len) by {
                    assert(b.pts_of(x) == s.pts_of(x));
                }
                assert forall|m: u32| below(#[trigger] b.memory_of(m), len) by {
                    assert(b.memory_of(m) == s.memory_of(m));
                }
            }
        },
        None => {},
    }
}

proof fn inside_spread(r: RunV, n: u32, locs: Seq<u32>)
    requires
        inside(r),
        below(locs, r.pag.locations.len()),
    ensures
        inside(r.with_st(r.st.spread(n, locs))),
{
    spread_within(r.st, n, locs, r.pag.locations.len());
}

proof fn with_param_inside(
    a: RunV,
    p: ProgramV,
    cs: SiteV,
    callee: FnId,
    formal: VarId,
    k: u32,
    loaded: Set<u32>,
)
    requires
        run_sound(a, loaded),
        inside(a),
    ensures
        inside(a.with_param(p, cs, callee, formal, k)),
{
    with_param_grows(a, p, cs, callee, formal, k, loaded);
    let b = a.with_param(p, cs, callee, formal, k);
    let len = a.pag.locations.len();
    match arg_at(cs.var_args, k, 0) {
        Some(actual) => {
            match (a.pag.node_of_var(formal), a.pag.node_of_var(actual)) {
                (Some(f), Some(n)) => {
                    let s = a.with_st(
                        SolverV {
                            wired_copies: a.st.wired_copies.insert((n.0, f.0)),
                            ..a.st
                        },
                    );
                    let r = if p.may_hold_pointee(actual) && p.may_hold_pointee(formal) {
                        if a.st.wired_copies.contains((n.0, f.0)) {
                            s
                        } else {
                            s.with_copy(n, f)
                        }
                    } else {
                        a
                    };
                    assert(same_held(a.st, r.st));
                    assert(within(r.st, len)) by {
                        assert forall|x: u32| below(#[trigger] r.st.pts_of(x), len) by {
                            assert(r.st.pts_of(x) == a.st.pts_of(x));
                        }
                        assert forall|m: u32| below(#[trigger] r.st.memory_of(m), len) by {
                            assert(r.st.memory_of(m) == a.st.memory_of(m));
                        }
                    }
                    spread_within(r.st, f.0, r.st.pts_of(n.0), len);
                    assert(b.pag.locations == a.pag.locations);
                },
                _ => {},
            }
        },
        None => {
            match fn_arg_at(cs.fn_args, k, 0) {
                Some(g) => {
                    match a.pag.node_of_var(formal) {
                        Some(f) => {
                            match a.pag.fn_location(g) {
                                Some(l) => {
                                    found_are_placed(a.pag, g, VarId(0), LocId(0));
                                    spread_within(a.st, f.0, seq![l.0], len);
                                },
                                None => {},
                            }
                        },
                        None => {},
                    }
                },
                None => {},
            }
        },
    }
}

proof fn with_params_inside(
    a: RunV,
    p: ProgramV,
    cs: SiteV,
    callee: FnId,
    params: Seq<VarId>,
    n: int,
    loaded: Set<u32>,
)
    requires
        run_sound(a, loaded),
        inside(a),
    ensures
        inside(a.with_params(p, cs, callee, params, n)),
    decreases n,
{
    if n > 0 {
        with_params_inside(a, p, cs, callee, params, n - 1, loaded);
        with_params_grows(a, p, cs, callee, params, n - 1, loaded);
        with_param_inside(
            a.with_params(p, cs, callee, params, n - 1),
            p,
            cs,
            callee,
            params[n - 1],
            (n - 1) as u32,
            loaded,
        );
    }
}

proof fn wired_to_inside(a: RunV, p: ProgramV, cs: SiteV, callee: FnId, loaded: Set<u32>)
    requires
        run_sound(a, loaded),
        inside(a),
    ensures
        inside(a.wired_to(p, cs, callee)),
{
    match p.symbols.function(callee) {
        Some(f) => {
            with_params_inside(a, p, cs, callee, f.params, f.params.len() as int, loaded);
        },
        None => {},
    }
}

proof fn with_copy_inside(a: RunV, src: PagNodeId, dst: PagNodeId, loaded: Set<u32>)
    requires
        run_sound(a, loaded),
        inside(a),
    ensures
        inside(a.with_copy(src, dst)),
{
    with_copy_grows(a, src, dst, loaded);
    inside_same(a, a.with_copy(src, dst), loaded);
}

proof fn with_effect_inside(a: RunV, cs: SiteV, effect: Effect, loaded: Set<u32>)
    requires
        run_sound(a, loaded),
        inside(a),
    ensures
        inside(a.with_effect(cs, effect)),
{
    with_effect_grows(a, cs, effect, loaded);
    match effect {
        Effect::Alias { dst, src } => {
            with_model_copy_inside(a, cs, dst, src, loaded);
        },
        Effect::MemCopy { dst, src } => {
            with_model_copy_inside(a, cs, dst, src, loaded);
        },
        Effect::ContentStore { ptr, value } => {
            match (a.pag.arg_node(cs, ptr), a.pag.arg_node(cs, value)) {
                (Some(t), Some(v)) => {
                    if !a.st.wired_model_edges.contains((v.0, t.0)) {
                        let i = a.pag.constraints.len() as usize;
                        let b = a.with_effect(cs, effect);
                        let st = (SolverV {
                            wired_model_edges: a.st.wired_model_edges.insert((v.0, t.0)),
                            ..a.st
                        }).pushed(t.0).pushed(v.0);
                        let len = b.pag.locations.len();
                        within_more(a.st, a.pag.locations.len(), len);
                        within_same(a.st, st, len);
                        store_within(st, b.pag, i, None);
                        assert(b.st == st.store(b.pag, i, None));
                    }
                },
                _ => {},
            }
        },
        _ => {
            inside_same(a, a.with_effect(cs, effect), loaded);
        },
    }
}

proof fn with_model_copy_inside(a: RunV, cs: SiteV, dst: u32, src: u32, loaded: Set<u32>)
    requires
        run_sound(a, loaded),
        inside(a),
    ensures
        inside(a.with_model_copy(cs, dst, src)),
{
    match (a.pag.arg_node(cs, dst), a.pag.arg_node(cs, src)) {
        (Some(dn), Some(sn)) => {
            let d = a.pag.side_of(dn);
            let s = a.pag.side_of(sn);
            if !a.st.wired_model_edges.contains((s.0, d.0)) {
                let st = SolverV {
                    wired_model_edges: a.st.wired_model_edges.insert((s.0, d.0)),
                    ..a.st
                };
                same_contents(a.st, st, loaded);
                let r = a.with_st(st);
                run_with_st(a, st, loaded);
                inside_same(a, r, loaded);
                with_copy_inside(r, s, d, loaded);
                let t = r.with_copy(s, d);
                inside_spread(t, d.0, t.st.pts_of(s.0));
            }
        },
        _ => {},
    }
}

proof fn with_effects_inside(a: RunV, cs: SiteV, effects: Seq<Effect>, n: int, loaded: Set<u32>)
    requires
        run_sound(a, loaded),
        inside(a),
    ensures
        inside(a.with_effects(cs, effects, n)),
    decreases n,
{
    if n > 0 {
        with_effects_inside(a, cs, effects, n - 1, loaded);
        with_effects_grows(a, cs, effects, n - 1, loaded);
        with_effect_inside(a.with_effects(cs, effects, n - 1), cs, effects[n - 1], loaded);
    }
}

proof fn modeled_inside(
    a: RunV,
    models: Seq<ModelV>,
    cs: SiteV,
    name: Seq<char>,
    loaded: Set<u32>,
)
    requires
        run_sound(a, loaded),
        inside(a),
    ensures
        inside(a.modeled(models, cs, name)),
{
    match model_of(models, name, 0) {
        Some(m) => {
            with_effects_inside(a, cs, m.effects, m.effects.len() as int, loaded);
        },
        None => {},
    }
}

proof fn with_direct_inside(
    a: RunV,
    p: ProgramV,
    models: Seq<ModelV>,
    cs: SiteV,
    callees: Seq<FnId>,
    n: int,
    loaded: Set<u32>,
)
    requires
        run_sound(a, loaded),
        inside(a),
    ensures
        inside(a.with_direct(p, models, cs, callees, n)),
    decreases n,
{
    if n > 0 {
        with_direct_inside(a, p, models, cs, callees, n - 1, loaded);
        with_direct_grows(a, p, models, cs, callees, n - 1, loaded);
        let r = a.with_direct(p, models, cs, callees, n - 1);
        let callee = callees[n - 1];
        match p.symbols.function(callee) {
            Some(f) => {
                let e = CallGraphEdge {
                    call_site: cs.id,
                    caller: cs.caller,
                    callee,
                    resolution: if f.is_defined {
                        ResolutionKind::Direct
                    } else {
                        ResolutionKind::External
                    },
                };
                let r1 = RunV { edges: r.edges.push(e), ..r };
                with_edge_grows(r, r1, e, loaded);
                wired_to_inside(r1, p, cs, callee, loaded);
                wired_to_grows(r1, p, cs, callee, loaded);
                modeled_inside(r1.wired_to(p, cs, callee), models, cs, f.name, loaded);
            },
            None => {},
        }
    }
}

proof fn with_direct_calls_inside(
    a: RunV,
    p: ProgramV,
    models: Seq<ModelV>,
    n: int,
    loaded: Set<u32>,
)
    requires
        run_sound(a, loaded),
        inside(a),
        n <= p.symbols.call_sites.len(),
    ensures
        inside(a.with_direct_calls(p, models, n)),
    decreases n,
{
    if n > 0 {
        with_direct_calls_inside(a, p, models, n - 1, loaded);
        with_direct_calls_grows(a, p, models, n - 1, loaded);
        let cs = p.symbols.call_sites[n - 1];
        let callees = p.direct_callees(cs);
        with_direct_inside(
            a.with_direct_calls(p, models, n - 1),
            p,
            models,
            cs,
            callees,
            callees.len() as int,
            loaded,
        );
    }
}

proof fn source_is_placed(g: PagV, i: usize)
    requires
        placed(g),
    ensures
        place_below(g.source_loc(i), g.locations.len()),
{
    match g.constraint(i) {
        Some(c) => {
            node_is_placed(g, c.src);
        },
        None => {},
    }
}

proof fn with_addresses_inside(a: RunV, node: u32, idxs: Seq<usize>, n: int)
    requires
        inside(a),
    ensures
        inside(a.with_addresses(node, idxs, n)),
    decreases n,
{
    if n > 0 {
        with_addresses_inside(a, node, idxs, n - 1);
        let r = a.with_addresses(node, idxs, n - 1);
        source_is_placed(r.pag, idxs[n - 1]);
        match r.pag.source_loc(idxs[n - 1]) {
            Some(l) => {
                inside_spread(r, node, seq![l.0]);
            },
            None => {},
        }
    }
}

proof fn with_var_summary_inside(
    a: RunV,
    p: ProgramV,
    src: PagNodeId,
    field: FieldId,
    dst: u32,
    loaded: Set<u32>,
)
    requires
        run_sound(a, loaded),
        inside(a),
    ensures
        inside(a.with_var_summary(p, src, field, dst)),
{
    with_var_summary_grows(a, p, src, field, dst, loaded);
    match a.pag.kind_of(src) {
        Some(PagNodeKind::Var(base)) => {
            let (q, s) = a.pag.ensured_var_summary(p, base, field);
            ensured_var_summary_placed(a.pag, p, base, field);
            let len = q.locations.len();
            within_more(a.st, a.pag.locations.len(), len);
            match s {
                Some(l) => {
                    spread_within(a.st, dst, seq![l.0], len);
                    merged_within(a.st.spread(dst, seq![l.0]), dst, l.0, len);
                },
                None => {},
            }
        },
        _ => {},
    }
}

proof fn with_first_geps_inside(
    a: RunV,
    p: ProgramV,
    idxs: Seq<usize>,
    n: int,
    loaded: Set<u32>,
)
    requires
        run_sound(a, loaded),
        inside(a),
    ensures
        inside(a.with_first_geps(p, idxs, n)),
    decreases n,
{
    if n > 0 {
        with_first_geps_inside(a, p, idxs, n - 1, loaded);
        with_first_geps_grows(a, p, idxs, n - 1, loaded);
        let r = a.with_first_geps(p, idxs, n - 1);
        match r.pag.constraint(idxs[n - 1]) {
            Some(c) => {
                match c.field {
                    Some(field) => {
                        with_var_summary_inside(r, p, c.src, field, c.dst.0, loaded);
                    },
                    None => {},
                }
            },
            None => {},
        }
    }
}

proof fn first_look_inside(a: RunV, p: ProgramV, node: u32, loaded: Set<u32>)
    requires
        run_sound(a, loaded),
        inside(a),
    ensures
        inside(a.first_look(p, node)),
{
    if !a.st.seen_once.contains(node) {
        let r = a.with_st(SolverV { seen_once: a.st.seen_once.insert(node), ..a.st });
        same_contents(a.st, r.st, loaded);
        run_with_st(a, r.st, loaded);
        inside_same(a, r, loaded);
        let addrs = list_of(r.pag.indices.addr_of_dst, node);
        let s = r.with_addresses(node, addrs, addrs.len() as int);
        with_addresses_inside(r, node, addrs, addrs.len() as int);
        with_addresses_grows(r, node, addrs, addrs.len() as int, loaded);
        let geps = list_of(s.pag.indices.gep_src, node);
        with_first_geps_inside(s, p, geps, geps.len() as int, loaded);
    }
}

proof fn with_copies_inside(a: RunV, delta: Seq<u32>, idxs: Seq<usize>, n: int)
    requires
        inside(a),
        below(delta, a.pag.locations.len()),
    ensures
        inside(a.with_copies(delta, idxs, n)),
        a.with_copies(delta, idxs, n).pag == a.pag,
    decreases n,
{
    if n > 0 {
        with_copies_inside(a, delta, idxs, n - 1);
        let r = a.with_copies(delta, idxs, n - 1);
        match r.pag.constraint(idxs[n - 1]) {
            Some(c) => {
                inside_spread(r, c.dst.0, delta);
            },
            None => {},
        }
    }
}

proof fn with_loaded_inside(a: RunV, dst: u32, delta: Seq<u32>, k: int)
    requires
        inside(a),
        below(delta, a.pag.locations.len()),
        k <= delta.len(),
    ensures
        inside(a.with_loaded(dst, delta, k)),
        a.with_loaded(dst, delta, k).pag == a.pag,
    decreases k,
{
    if k > 0 {
        with_loaded_inside(a, dst, delta, k - 1);
        let r = a.with_loaded(dst, delta, k - 1);
        inside_spread(r, dst, seq![delta[k - 1]]);
        merged_within(r.st, dst, delta[k - 1], r.pag.locations.len());
    }
}

proof fn with_loads_inside(a: RunV, delta: Seq<u32>, idxs: Seq<usize>, n: int)
    requires
        inside(a),
        below(delta, a.pag.locations.len()),
    ensures
        inside(a.with_loads(delta, idxs, n)),
        a.with_loads(delta, idxs, n).pag == a.pag,
    decreases n,
{
    if n > 0 {
        with_loads_inside(a, delta, idxs, n - 1);
        let r = a.with_loads(delta, idxs, n - 1);
        match r.pag.constraint(idxs[n - 1]) {
            Some(c) => {
                with_loaded_inside(r, c.dst.0, delta, delta.len() as int);
            },
            None => {},
        }
    }
}

proof fn with_stores_inside(a: RunV, given: Option<Seq<u32>>, idxs: Seq<usize>, n: int)
    requires
        inside(a),
    ensures
        inside(a.with_stores(given, idxs, n)),
        a.with_stores(given, idxs, n).pag == a.pag,
    decreases n,
{
    if n > 0 {
        with_stores_inside(a, given, idxs, n - 1);
        let r = a.with_stores(given, idxs, n - 1);
        store_within(r.st, r.pag, idxs[n - 1], given);
    }
}

proof fn with_array_members_inside(a: RunV, array: VarId, dst: u32)
    requires
        inside(a),
    ensures
        inside(a.with_array_members(array, dst)),
{
    let len = a.pag.locations.len();
    let members = list_of(a.pag.array_fn_members, array.0);
    let fns = loc_numbers(members);
    assert forall|i: int| 0 <= i < fns.len() implies #[trigger] fns[i] < len by {
        members_are_placed(a.pag, array.0, i);
    }
    spread_each_within(a.st, dst, fns, fns.len() as int, len);
}

proof fn with_function_field_inside(
    a: RunV,
    p: ProgramV,
    src: PagNodeId,
    dst: u32,
    field: FieldId,
    l: u32,
    f: FnId,
)
    requires
        inside(a),
        l < a.pag.locations.len(),
    ensures
        inside(a.with_function_field(p, src, dst, field, l, f)),
{
    inside_spread(a, dst, seq![l]);
    match a.pag.kind_of(src) {
        Some(PagNodeKind::Var(v)) => {
            with_array_members_inside(a, v, dst);
        },
        _ => {},
    }
}

proof fn with_object_field_inside(
    a: RunV,
    p: ProgramV,
    dst: u32,
    field: FieldId,
    l: u32,
    loaded: Set<u32>,
)
    requires
        run_sound(a, loaded),
        inside(a),
    ensures
        inside(a.with_object_field(p, dst, field, l).0),
{
    with_object_field_grows(a, p, dst, field, l, loaded);
    let (q, fl) = a.pag.ensured_field(p, LocId(l), field);
    ensured_field_placed(a.pag, p, LocId(l), field);
    let len = q.locations.len();
    let end = a.with_object_field(p, dst, field, l).0;
    assert(end.pag == q);
    within_more(a.st, a.pag.locations.len(), len);
    match fl {
        Some(place) => {
            found_are_placed(q, FnId(0), VarId(0), place);
            let st = match q.summary_of(place) {
                Some(sum) => {
                    let locs = seq![place.0, sum.0];
                    spread_within(a.st, dst, locs, len);
                    let s1 = a.st.spread(dst, locs);
                    merged_within(s1, dst, place.0, len);
                    merged_within(s1.merged(dst, place.0), dst, sum.0, len);
                    s1.merged(dst, place.0).merged(dst, sum.0)
                },
                None => {
                    let locs = seq![place.0];
                    spread_within(a.st, dst, locs, len);
                    merged_within(a.st.spread(dst, locs), dst, place.0, len);
                    a.st.spread(dst, locs).merged(dst, place.0)
                },
            };
            let r = RunV { pag: q, st, ..a };
            match q.location(LocId(l)) {
                Some(loc) => {
                    match loc.var {
                        Some(owner) => {
                            with_array_members_inside(r, owner, dst);
                        },
                        None => {},
                    }
                },
                None => {},
            }
        },
        None => {},
    }
}

proof fn with_gep_locs_inside(
    a: RunV,
    p: ProgramV,
    c: ConstraintV,
    field: FieldId,
    delta: Seq<u32>,
    k: int,
    loaded: Set<u32>,
)
    requires
        run_sound(a, loaded),
        inside(a),
        below(delta, a.pag.locations.len()),
        k <= delta.len(),
    ensures
        inside(a.with_gep_locs(p, c, field, delta, k).0),
    decreases k,
{
    if k > 0 {
        with_gep_locs_inside(a, p, c, field, delta, k - 1, loaded);
        with_gep_locs_grows(a, p, c, field, delta, k - 1, loaded);
        let r = a.with_gep_locs(p, c, field, delta, k - 1).0;
        let l = delta[k - 1];
        assert(l < r.pag.locations.len());
        match r.pag.function_at(LocId(l)) {
            Some(f) => {
                with_function_field_inside(r, p, c.src, c.dst.0, field, l, f);
            },
            None => {
                with_object_field_inside(r, p, c.dst.0, field, l, loaded);
            },
        }
    }
}

proof fn with_gep_inside(a: RunV, look: LookV, i: usize, loaded: Set<u32>)
    requires
        run_sound(a, loaded),
        inside(a),
        below(look.delta, a.pag.locations.len()),
    ensures
        inside(a.with_gep(look, i)),
{
    match a.pag.constraint(i) {
        Some(c) => {
            match c.field {
                Some(field) => {
                    let n = look.delta.len() as int;
                    with_gep_locs_inside(a, look.p, c, field, look.delta, n, loaded);
                    with_gep_locs_grows(a, look.p, c, field, look.delta, n, loaded);
                    let r = a.with_gep_locs(look.p, c, field, look.delta, n).0;
                    with_var_summary_inside(r, look.p, c.src, field, c.dst.0, loaded);
                },
                None => {},
            }
        },
        None => {},
    }
}

proof fn with_geps_inside(a: RunV, look: LookV, idxs: Seq<usize>, n: int, loaded: Set<u32>)
    requires
        run_sound(a, loaded),
        inside(a),
        below(look.delta, a.pag.locations.len()),
    ensures
        inside(a.with_geps(look, idxs, n)),
    decreases n,
{
    if n > 0 {
        with_geps_inside(a, look, idxs, n - 1, loaded);
        with_geps_grows(a, look, idxs, n - 1, loaded);
        let r = a.with_geps(look, idxs, n - 1);
        assert(a.pag.locations.len() <= r.pag.locations.len());
        with_gep_inside(r, look, idxs[n - 1], loaded);
    }
}

proof fn with_named_inside(a: RunV, fns: Seq<FnV>, name: Seq<char>, dst: u32, n: int)
    requires
        inside(a),
    ensures
        inside(a.with_named(fns, name, dst, n)),
    decreases n,
{
    if n > 0 {
        with_named_inside(a, fns, name, dst, n - 1);
        let r = a.with_named(fns, name, dst, n - 1);
        match r.pag.fn_location(fns[n - 1].id) {
            Some(l) => {
                found_are_placed(r.pag, fns[n - 1].id, VarId(0), LocId(0));
                inside_spread(r, dst, seq![l.0]);
            },
            None => {},
        }
    }
}

proof fn with_looked_up_inside(a: RunV, p: ProgramV, dst: u32, delta: Seq<u32>, k: int)
    requires
        inside(a),
    ensures
        inside(a.with_looked_up(p, dst, delta, k)),
    decreases k,
{
    if k > 0 {
        with_looked_up_inside(a, p, dst, delta, k - 1);
        let r = a.with_looked_up(p, dst, delta, k - 1);
        match r.pag.location(LocId(delta[k - 1])) {
            Some(loc) => {
                with_named_inside(
                    r,
                    p.symbols.functions,
                    loc.desc,
                    dst,
                    p.symbols.functions.len() as int,
                );
            },
            None => {},
        }
    }
}

proof fn with_lookups_inside(a: RunV, look: LookV, idxs: Seq<usize>, n: int)
    requires
        inside(a),
    ensures
        inside(a.with_lookups(look, idxs, n)),
    decreases n,
{
    if n > 0 {
        with_lookups_inside(a, look, idxs, n - 1);
        let r = a.with_lookups(look, idxs, n - 1);
        match r.pag.constraint(idxs[n - 1]) {
            Some(c) => {
                with_looked_up_inside(r, look.p, c.dst.0, look.delta, look.delta.len() as int);
            },
            None => {},
        }
    }
}

proof fn with_returns_inside(
    a: RunV,
    p: ProgramV,
    models: Seq<ModelV>,
    cs: SiteV,
    callee: FnId,
    loaded: Set<u32>,
)
    requires
        run_sound(a, loaded),
        inside(a),
    ensures
        inside(a.with_returns(p, models, cs, callee)),
{
    with_returns_grows(a, p, models, cs, callee, loaded);
    let b = a.with_returns(p, models, cs, callee);
    match cs.callee_var {
        Some(v) => {
            if a.pag.indirect_return_dst.contains_key(v.0) {
                let from = a.pag.constraints.len() as int;
                let q = a.pag.with_returns_of(
                    p,
                    models,
                    PagNodeId(a.pag.indirect_return_dst[v.0]),
                    callee,
                );
                let again = node_numbers(q.touched(from, q.constraints.len() as int));
                let st = a.st.pushed_all(again, again.len() as int);
                let len = b.pag.locations.len();
                pushed_all_same(a.st, again, again.len() as int);
                within_more(a.st, a.pag.locations.len(), len);
                within_same(a.st, st, len);
                caught_up_within(st, b.pag, from, b.pag.constraints.len() as int);
                assert(b.st == st.caught_up(b.pag, from, b.pag.constraints.len() as int));
            }
        },
        None => {},
    }
}

proof fn caught_up_within(a: SolverV, pag: PagV, from: int, n: int)
    requires
        placed(pag),
        within(a, pag.locations.len()),
        n <= pag.constraints.len(),
    ensures
        within(a.caught_up(pag, from, n), pag.locations.len()),
    decreases n - from,
{
    if n > from {
        caught_up_within(a, pag, from, n - 1);
        let s = a.caught_up(pag, from, n - 1);
        let len = pag.locations.len();
        let c = pag.constraints[n - 1];
        match c.kind {
            ConstraintKind::Copy => {
                spread_within(s, c.dst.0, s.pts_of(c.src.0), len);
            },
            ConstraintKind::AddrOf => {
                match pag.kind_of(c.src) {
                    Some(PagNodeKind::Loc(l)) => {
                        node_is_placed(pag, c.src);
                        spread_within(s, c.dst.0, seq![l.0], len);
                    },
                    _ => {},
                }
            },
            _ => {},
        }
    }
}

proof fn with_callee_inside(
    a: RunV,
    p: ProgramV,
    models: Seq<ModelV>,
    cs: SiteV,
    callee: FnId,
    loaded: Set<u32>,
)
    requires
        run_sound(a, loaded),
        inside(a),
    ensures
        inside(a.with_callee(p, models, cs, callee)),
{
    let known = list_of(a.resolved, cs.id.0);
    if !known.contains(callee) {
        let r0 = called(a, cs, callee);
        called_grows(a, cs, callee, loaded);
        inside_same(a, r0, loaded);
        wired_to_inside(r0, p, cs, callee, loaded);
        wired_to_grows(r0, p, cs, callee, loaded);
        let r1 = r0.wired_to(p, cs, callee);
        with_returns_inside(r1, p, models, cs, callee, loaded);
        with_returns_grows(r1, p, models, cs, callee, loaded);
        match p.symbols.function(callee) {
            Some(f) => {
                modeled_inside(
                    r1.with_returns(p, models, cs, callee),
                    models,
                    cs,
                    f.name,
                    loaded,
                );
            },
            None => {},
        }
    }
}

proof fn with_callees_inside(
    a: RunV,
    p: ProgramV,
    models: Seq<ModelV>,
    cs: SiteV,
    callees: Seq<FnId>,
    n: int,
    loaded: Set<u32>,
)
    requires
        run_sound(a, loaded),
        inside(a),
        n <= callees.len(),
    ensures
        inside(a.with_callees(p, models, cs, callees, n)),
    decreases n,
{
    if n > 0 {
        with_callees_inside(a, p, models, cs, callees, n - 1, loaded);
        with_callees_grows(a, p, models, cs, callees, n - 1, loaded);
        with_callee_inside(
            a.with_callees(p, models, cs, callees, n - 1),
            p,
            models,
            cs,
            callees[n - 1],
            loaded,
        );
    }
}

proof fn with_indirect_inside(
    a: RunV,
    look: LookV,
    sites: Seq<CallSiteId>,
    n: int,
    loaded: Set<u32>,
)
    requires
        run_sound(a, loaded),
        inside(a),
        n <= sites.len(),
    ensures
        inside(a.with_indirect(look, sites, n)),
    decreases n,
{
    if n > 0 {
        with_indirect_inside(a, look, sites, n - 1, loaded);
        with_indirect_grows(a, look, sites, n - 1, loaded);
        let r = a.with_indirect(look, sites, n - 1);
        match look.p.site(sites[n - 1]) {
            Some(cs) => {
                let callees = r.reached(look.p, look.delta, look.delta.len() as int);
                with_callees_inside(
                    r,
                    look.p,
                    look.models,
                    cs,
                    callees,
                    callees.len() as int,
                    loaded,
                );
            },
            None => {},
        }
    }
}

proof fn travelled_inside(a: RunV, look: LookV, from: Set<u32>)
    requires
        run_sound(a, from),
        inside(a),
        below(look.delta, a.pag.locations.len()),
    ensures
        inside(a.travelled(look)),
{
    let node = look.node;
    let delta = look.delta;
    let copies = list_of(a.pag.indices.copy_src, node);
    let r1 = a.with_copies(delta, copies, copies.len() as int);
    with_copies_grows(a, delta, copies, copies.len() as int, from);
    with_copies_inside(a, delta, copies, copies.len() as int);
    let addrs = list_of(r1.pag.indices.addr_of_dst, node);
    let r2 = r1.with_addresses(node, addrs, addrs.len() as int);
    with_addresses_grows(r1, node, addrs, addrs.len() as int, from);
    with_addresses_inside(r1, node, addrs, addrs.len() as int);
    let loads = list_of(r2.pag.indices.load_src, node);
    let r3 = r2.with_loads(delta, loads, loads.len() as int);
    with_loads_grows(r2, delta, loads, loads.len() as int, from);
    with_loads_inside(r2, delta, loads, loads.len() as int);
    let into = list_of(r3.pag.indices.store_dst, node);
    let r4 = r3.with_stores(Some(delta), into, into.len() as int);
    with_stores_grows(r3, Some(delta), into, into.len() as int, from);
    with_stores_inside(r3, Some(delta), into, into.len() as int);
    let out = list_of(r4.pag.indices.store_src, node);
    let r5 = r4.with_stores(None, out, out.len() as int);
    with_stores_grows(r4, None, out, out.len() as int, from);
    with_stores_inside(r4, None, out, out.len() as int);
    assert(a.pag.locations.len() <= r5.pag.locations.len());
    let geps = list_of(r5.pag.indices.gep_src, node);
    let r6 = r5.with_geps(look, geps, geps.len() as int);
    with_geps_grows(r5, look, geps, geps.len() as int, from);
    with_geps_inside(r5, look, geps, geps.len() as int, from);
    let lookups = list_of(r6.pag.indices.dlsym_src, node);
    let r7 = r6.with_lookups(look, lookups, lookups.len() as int);
    with_lookups_grows(r6, look, lookups, lookups.len() as int, from);
    with_lookups_inside(r6, look, lookups, lookups.len() as int);
    let calls = list_of(r7.pag.indices.indirect_by_target, node);
    with_indirect_inside(r7, look, calls, calls.len() as int, from);
}

/// One look at a node keeps to the places of the graph.
pub proof fn step_inside(r: RunV, p: ProgramV, models: Seq<ModelV>, loaded: Set<u32>)
    requires
        run_sound(r, loaded),
        inside(r),
        r.st.worklist.len() > 0,
    ensures
        inside(r.step(p, models)),
        below(list_of(r.st.delta, r.st.worklist.last()), r.pag.locations.len()),
{
    let node = r.st.worklist.last();
    let st = popped(r.st);
    let delta = list_of(st.delta, node);
    let len = r.pag.locations.len();
    let r0 = r.with_st(st.taken(node));
    taken_facts(r.st);
    assert(run_sound(r0, loaded));
    assert(inside(r0)) by {
        assert forall|n: u32| below(#[trigger] r0.st.pts_of(n), len) by {
            assert forall|l: u32| #[trigger] r0.st.pts_of(n).contains(l) implies l < len by {
                assert(holds(r0.st, n, l));
                assert(holds(r.st, n, l));
                assert(below(r.st.pts_of(n), len));
            }
            below_of(r0.st.pts_of(n), len);
        }
        assert forall|m: u32| below(#[trigger] r0.st.memory_of(m), len) by {
            assert(r0.st.memory_of(m) == r.st.memory_of(m));
        }
    }
    assert forall|l: u32| #[trigger] delta.contains(l) implies l < len by {
        assert(list_of(r.st.delta, node).contains(l));
        assert(holds(r.st, node, l));
        assert(below(r.st.pts_of(node), len));
    }
    below_of(delta, len);
    if delta.len() == 0 {
        first_look_inside(r0, p, node, loaded);
    } else {
        travelled_inside(r0, LookV { p, models, node, delta }, loaded);
    }
}

proof fn seeds_within(a: SolverV, g: PagV, n: int)
    requires
        placed(g),
        within(a, g.locations.len()),
    ensures
        within(a.with_seeds(g, n), g.locations.len()),
    decreases n,
{
    if n > 0 {
        seeds_within(a, g, n - 1);
        let c = g.constraints[n - 1];
        node_is_placed(g, c.src);
        match g.kind_of(c.src) {
            Some(PagNodeKind::Loc(l)) => {
                spread_within(a.with_seeds(g, n - 1), c.dst.0, seq![l.0], g.locations.len());
            },
            _ => {},
        }
    }
}

proof fn places_within(a: SolverV, vars: Seq<VarV>, g: PagV, n: int)
    requires
        placed(g),
        within(a, g.locations.len()),
    ensures
        within(a.with_places(vars, g, n), g.locations.len()),
    decreases n,
{
    if n > 0 {
        places_within(a, vars, g, n - 1);
        let v = vars[n - 1];
        found_are_placed(g, FnId(0), v.id, LocId(0));
        match (g.location_of_var(v.id), g.node_of_var(v.id)) {
            (Some(l), Some(node)) => {
                spread_within(
                    a.with_places(vars, g, n - 1),
                    node.0,
                    seq![l.0],
                    g.locations.len(),
                );
            },
            _ => {},
        }
    }
}

proof fn seen_same(a: SolverV, g: PagV, n: int)
    ensures
        same_held(a, a.with_seen(g, n)),
    decreases n,
{
    if n > 0 {
        seen_same(a, g, n - 1);
    }
}

proof fn constrained_same(a: SolverV, g: PagV, n: int)
    ensures
        same_held(a, a.with_constrained(g, n)),
    decreases n,
{
    if n > 0 {
        constrained_same(a, g, n - 1);
    }
}

proof fn guards_same(a: SolverV, p: ProgramV, g: PagV, n: int)
    ensures
        same_held(a, a.with_guards(p, g, n)),
    decreases n,
{
    if n > 0 {
        guards_same(a, p, g, n - 1);
    }
}

proof fn arities_same(a: SolverV, p: ProgramV, g: PagV, n: int)
    ensures
        same_held(a, a.with_arities(p, g, n)),
    decreases n,
{
    if n > 0 {
        arities_same(a, p, g, n - 1);
    }
}

proof fn within_same(a: SolverV, b: SolverV, len: nat)
    requires
        within(a, len),
        same_held(a, b),
    ensures
        within(b, len),
{
    assert forall|n: u32| below(#[trigger] b.pts_of(n), len) by {
        assert(b.pts_of(n) == a.pts_of(n));
    }
    assert forall|m: u32| below(#[trigger] b.memory_of(m), len) by {
        assert(b.memory_of(m) == a.memory_of(m));
    }
}

/// Solving begins inside a graph.
pub proof fn start_inside(g: PagV, p: ProgramV, models: Seq<ModelV>)
    requires
        placed(g),
    ensures
        inside(before_calls(g, p)),
        inside(g.start(p, models)),
{
    let len = g.locations.len();
    let n = g.constraints.len() as int;
    let vars = p.symbols.variables;
    let e = SolverV::empty().with_fn_locs(g);
    assert(within(e, len)) by {
        assert forall|x: u32| below(#[trigger] e.pts_of(x), len) by {
            assert(e.pts_of(x) =~= Seq::<u32>::empty());
        }
        assert forall|m: u32| below(#[trigger] e.memory_of(m), len) by {
            assert(e.memory_of(m) =~= Seq::<u32>::empty());
        }
    }
    let s0 = e.with_guards(p, g, len as int);
    guards_same(e, p, g, len as int);
    let s1 = s0.with_arities(p, g, g.fn_locations.len() as int);
    arities_same(s0, p, g, g.fn_locations.len() as int);
    let s2 = s1.with_constrained(g, n);
    constrained_same(s1, g, n);
    within_same(e, s2, len);
    let s3 = s2.with_seeds(g, n);
    seeds_within(s2, g, n);
    let s4 = s3.with_seen(g, n);
    seen_same(s3, g, n);
    within_same(s3, s4, len);
    places_within(s4, vars, g, vars.len() as int);
    before_calls_sound(g, p, models);
    with_direct_calls_inside(
        before_calls(g, p),
        p,
        models,
        p.symbols.call_sites.len() as int,
        loaded_in(g),
    );
}

proof fn run_inside(r: RunV, p: ProgramV, models: Seq<ModelV>, g: PagV, budget: nat)
    requires
        run_sound(r, loaded_in(g)),
        extended(g, r.pag),
        g.constraints.len() <= usize::MAX,
        on_track(r, g, p),
        inside(r),
    ensures
        inside(r.run(p, models, budget)),
    decreases budget,
{
    if r.st.worklist.len() == 0 {
    } else if budget == 0 {
        within_same(r.st, r.run(p, models, budget).st, r.pag.locations.len());
    } else {
        step_keeps(r, p, models, g);
        step_inside(r, p, models, loaded_in(g));
        run_inside(r.step(p, models), p, models, g, (budget - 1) as nat);
    }
}

/// The graph once it is solved: with the places of the fields that have been
/// accessed.
pub open spec fn solved_pag(g: PagV, p: ProgramV, models: Seq<ModelV>, budget: nat) -> PagV {
    g.start(p, models).run(p, models, budget).pag
}

/// Whatever a node may hold is a place that the solved graph has, under its
/// number, whatever the budget.
pub proof fn held_places_exist(
    g: PagV,
    p: ProgramV,
    models: Seq<ModelV>,
    budget: nat,
    n: u32,
    l: u32,
)
    requires
        placed(g),
        g.constraints.len() <= usize::MAX,
        may_hold(g, p, models, budget, n, l),
    ensures
        match solved_pag(g, p, models, budget).location(LocId(l)) {
            Some(loc) => loc.id.0 == l,
            None => false,
        },
{
    let r = g.start(p, models);
    start_keeps(g, p, models);
    start_inside(g, p, models);
    run_inside(r, p, models, g, budget);
    let end = r.run(p, models, budget);
    assert(holds(end.st, n, l));
    assert(below(end.st.pts_of(n), end.pag.locations.len()));
    place_has_its_number(end.pag, LocId(l));
}

} // verus!
