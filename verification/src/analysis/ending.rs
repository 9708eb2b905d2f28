//! That solving comes to an end.
//!
//! Every look takes a node from those to look at, and nothing is put among
//! them unless something happens that has not happened before: a node or a
//! place holds one thing more, a copy is wired, or a call is found to reach
//! one more function. There are only so many things that can happen.

use crate::analysis::constraints::{CallGraphEdge, ConstraintKind, ConstraintV, ResolutionKind};
use crate::analysis::growth::{fresh_holds, push_holds, with_members_hold};
use crate::analysis::models::{model_of, Effect, ModelV};
use crate::analysis::pag::{arg_at, list_of, PagNodeKind, PagV};
use crate::analysis::solver::{
    fn_arg_at, loc_numbers, node_numbers, with_value, LookV, RunV, SUMMARY_MEM_CAP,
};
use crate::analysis::state::{fresh, with_members, SolverV};
use crate::collections::with_member;
use crate::ir::ids::{CallSiteId, FieldId, FnId, LocId, PagNodeId, VarId};
use crate::ir::program::ProgramV;
use crate::ir::symbol::{FnV, SiteV};
use vstd::prelude::*;
use vstd::set_lib::{lemma_int_range, lemma_set_subset_finite, set_int_range};

verus! {

/// What can happen while a graph is solved, once each.
pub enum Event {
    /// A node may hold a location.
    Held(u32, u32),
    /// A place may hold a location.
    Written(u32, u32),
    /// An argument is copied to a parameter, for good.
    Wired(u32, u32),
    /// An argument is copied to another, or written to where it points, for
    /// good.
    Modeled(u32, u32),
    /// A call is found to reach a function.
    Reached(u32, u32),
}

/// Whether something has happened to what nodes and places hold, or to what is
/// wired.
pub open spec fn has_changed(st: SolverV, e: Event) -> bool {
    match e {
        Event::Held(n, l) => st.pts_of(n).contains(l),
        Event::Written(m, l) => st.memory_of(m).contains(l),
        Event::Wired(a, b) => st.wired_copies.contains((a, b)),
        Event::Modeled(a, b) => st.wired_model_edges.contains((a, b)),
        Event::Reached(s, f) => false,
    }
}

/// Whether something has happened.
pub open spec fn happened(r: RunV, e: Event) -> bool {
    match e {
        Event::Reached(s, f) => list_of(r.resolved, s).contains(FnId(f)),
        _ => has_changed(r.st, e),
    }
}

/// What has not happened yet.
pub open spec fn to_come(r: RunV) -> Set<Event> {
    Set::new(|e: Event| !happened(r, e))
}

spec fn event_of(i: int) -> Event {
    let kind = i / 0x1_0000_0000_0000_0000;
    let a = ((i / 0x1_0000_0000) % 0x1_0000_0000) as u32;
    let b = (i % 0x1_0000_0000) as u32;
    if kind == 0 {
        Event::Held(a, b)
    } else if kind == 1 {
        Event::Written(a, b)
    } else if kind == 2 {
        Event::Wired(a, b)
    } else if kind == 3 {
        Event::Modeled(a, b)
    } else {
        Event::Reached(a, b)
    }
}

spec fn number_of(e: Event) -> int {
    match e {
        Event::Held(a, b) => a * 0x1_0000_0000 + b,
        Event::Written(a, b) => 0x1_0000_0000_0000_0000 + a * 0x1_0000_0000 + b,
        Event::Wired(a, b) => 2 * 0x1_0000_0000_0000_0000 + a * 0x1_0000_0000 + b,
        Event::Modeled(a, b) => 3 * 0x1_0000_0000_0000_0000 + a * 0x1_0000_0000 + b,
        Event::Reached(a, b) => 4 * 0x1_0000_0000_0000_0000 + a * 0x1_0000_0000 + b,
    }
}

/// Only so many things can happen.
proof fn events_are_finite(s: Set<Event>)
    ensures
        s.finite(),
{
    let top: int = 5 * 0x1_0000_0000_0000_0000int;
    let numbers = set_int_range(0, top);
    lemma_int_range(0, top);
    let f = |i: int| event_of(i);
    numbers.lemma_map_finite(f);
    let all = numbers.map(f);
    assert forall|e: Event| #[trigger] s.contains(e) implies all.contains(e) by {
        let i = number_of(e);
        assert(numbers.contains(i));
        assert(f(i) == e);
    }
    lemma_set_subset_finite(all, s);
}

/// Whether whatever has happened in one state has happened in another.
spec fn keeps(a: RunV, b: RunV) -> bool {
    forall|e: Event| #[trigger] happened(a, e) ==> happened(b, e)
}

spec fn is_new(a: RunV, b: RunV, e: Event) -> bool {
    happened(b, e) && !happened(a, e)
}

/// Whether, besides, nothing has been put among the nodes to look at, or
/// something has happened.
spec fn goes(a: RunV, b: RunV) -> bool {
    keeps(a, b) && (b.st.worklist == a.st.worklist || exists|e: Event| #[trigger] is_new(a, b, e))
}

spec fn st_keeps(a: SolverV, b: SolverV) -> bool {
    forall|e: Event| #[trigger] has_changed(a, e) ==> has_changed(b, e)
}

spec fn st_new(a: SolverV, b: SolverV, e: Event) -> bool {
    has_changed(b, e) && !has_changed(a, e)
}

spec fn st_goes(a: SolverV, b: SolverV) -> bool {
    st_keeps(a, b) && (b.worklist == a.worklist || exists|e: Event| #[trigger] st_new(a, b, e))
}

proof fn refl(a: RunV)
    ensures
        goes(a, a),
{
}

proof fn trans(a: RunV, b: RunV, c: RunV)
    requires
        goes(a, b),
        goes(b, c),
    ensures
        goes(a, c),
{
    if exists|e: Event| #[trigger] is_new(a, b, e) {
        let e = choose|e: Event| #[trigger] is_new(a, b, e);
        assert(is_new(a, c, e));
    } else if exists|e: Event| #[trigger] is_new(b, c, e) {
        let e = choose|e: Event| #[trigger] is_new(b, c, e);
        assert(is_new(a, c, e));
    }
}

proof fn st_trans(a: SolverV, b: SolverV, c: SolverV)
    requires
        st_goes(a, b),
        st_goes(b, c),
    ensures
        st_goes(a, c),
{
    if exists|e: Event| #[trigger] st_new(a, b, e) {
        let e = choose|e: Event| #[trigger] st_new(a, b, e);
        assert(st_new(a, c, e));
    } else if exists|e: Event| #[trigger] st_new(b, c, e) {
        let e = choose|e: Event| #[trigger] st_new(b, c, e);
        assert(st_new(a, c, e));
    }
}

/// What goes for the state goes for the run.
proof fn lift(a: RunV, b: RunV)
    requires
        st_goes(a.st, b.st),
        b.resolved == a.resolved,
    ensures
        goes(a, b),
{
    assert forall|e: Event| #[trigger] happened(a, e) implies happened(b, e) by {
        assert(has_changed(a.st, e) ==> has_changed(b.st, e));
    }
    if b.st.worklist != a.st.worklist {
        let e = choose|e: Event| #[trigger] st_new(a.st, b.st, e);
        assert(is_new(a, b, e));
    }
}

/// Two states in which the same has happened.
spec fn same_events(a: SolverV, b: SolverV) -> bool {
    &&& b.pts == a.pts
    &&& b.memory == a.memory
    &&& b.wired_copies == a.wired_copies
    &&& b.wired_model_edges == a.wired_model_edges
}

proof fn same_keeps(a: SolverV, b: SolverV)
    requires
        same_events(a, b),
    ensures
        st_keeps(a, b),
        forall|e: Event| #[trigger] has_changed(b, e) == has_changed(a, e),
{
}

proof fn held_leaves(a: SolverV, n: u32, locs: Seq<u32>, k: int)
    ensures
        same_events(a, a.held(n, locs, k)),
        a.held(n, locs, k).worklist == a.worklist,
    decreases k,
{
    if k > 0 {
        held_leaves(a, n, locs, k - 1);
    }
}

proof fn recorded_leaves(a: SolverV, n: u32, locs: Seq<u32>, k: int)
    ensures
        same_events(a, a.recorded(n, locs, k)),
        a.recorded(n, locs, k).worklist == a.worklist,
    decreases k,
{
    if k > 0 {
        recorded_leaves(a, n, locs, k - 1);
    }
}

proof fn touched_leaves(a: SolverV, loc: u32, nodes: Seq<u32>, loads: Map<u32, Seq<usize>>, k: int)
    ensures
        same_events(a, a.touched(loc, nodes, loads, k)),
    decreases k,
{
    if k > 0 {
        touched_leaves(a, loc, nodes, loads, k - 1);
        let s = a.touched(loc, nodes, loads, k - 1);
        recorded_leaves(s, nodes[k - 1], seq![loc], 1);
    }
}

proof fn touched_all_leaves(a: SolverV, locs: Seq<u32>, loads: Map<u32, Seq<usize>>, k: int)
    ensures
        same_events(a, a.touched_all(locs, loads, k)),
    decreases k,
{
    if k > 0 {
        touched_all_leaves(a, locs, loads, k - 1);
        let s = a.touched_all(locs, loads, k - 1);
        let nodes = list_of(s.loc_nodes, locs[k - 1]);
        touched_leaves(s, locs[k - 1], nodes, loads, nodes.len() as int);
    }
}

proof fn forgotten_leaves(a: SolverV, n: u32, locs: Seq<u32>, k: int)
    ensures
        same_events(a, a.forgotten(n, locs, k)),
        a.forgotten(n, locs, k).worklist == a.worklist,
    decreases k,
{
    if k > 0 {
        forgotten_leaves(a, n, locs, k - 1);
    }
}

proof fn pushed_all_leaves(a: SolverV, nodes: Seq<u32>, k: int)
    ensures
        same_events(a, a.pushed_all(nodes, k)),
    decreases k,
{
    if k > 0 {
        pushed_all_leaves(a, nodes, k - 1);
    }
}

proof fn spread_goes(a: SolverV, n: u32, locs: Seq<u32>)
    ensures
        st_goes(a, a.spread(n, locs)),
{
    let known = a.pts_of(n);
    let news = fresh(known, locs, locs.len() as int);
    let b = a.spread(n, locs);
    if news.len() > 0 {
        let s1 = SolverV { pts: a.pts.insert(n, with_members(known, news)), ..a };
        held_leaves(s1, n, news, news.len() as int);
        let s2 = s1.held(n, news, news.len() as int);
        recorded_leaves(s2, n, news, news.len() as int);
        with_members_hold(known, news);
        fresh_holds(known, locs, locs.len() as int);
        assert(b.pts == s1.pts);
        assert forall|e: Event| #[trigger] has_changed(a, e) implies has_changed(b, e) by {
            match e {
                Event::Held(m, l) => {
                    if m == n {
                        assert(with_members(known, news).contains(l));
                    }
                },
                _ => {},
            }
        }
        let l = news[0];
        assert(news.contains(l));
        assert(with_members(known, news).contains(l));
        assert(st_new(a, b, Event::Held(n, l)));
    }
}

proof fn spread_each_goes(a: SolverV, n: u32, locs: Seq<u32>, k: int)
    ensures
        st_goes(a, a.spread_each(n, locs, k)),
    decreases k,
{
    if k > 0 {
        spread_each_goes(a, n, locs, k - 1);
        let s = a.spread_each(n, locs, k - 1);
        spread_goes(s, n, seq![locs[k - 1]]);
        st_trans(a, s, a.spread_each(n, locs, k));
    }
}

proof fn merged_goes(a: SolverV, n: u32, mem: u32)
    ensures
        st_goes(a, a.merged(n, mem)),
{
    let seen = a.seen_of(n, mem) as int;
    let len = a.memory_of(mem).len() as int;
    if len > seen {
        let s = a.spread(n, a.let_out(mem, seen, len));
        spread_goes(a, n, a.let_out(mem, seen, len));
        same_keeps(s, a.merged(n, mem));
        st_trans(a, s, a.merged(n, mem));
    }
}

/// A list that has become longer has something new.
proof fn longer_has_new(s: Seq<u32>, more: Seq<u32>) -> (x: u32)
    requires
        with_members(s, more).len() > s.len(),
    ensures
        with_members(s, more).contains(x),
        !s.contains(x),
    decreases more.len(),
{
    let before = with_members(s, more.drop_last());
    with_members_hold(s, more);
    with_members_hold(s, more.drop_last());
    if before.len() > s.len() {
        let x = longer_has_new(s, more.drop_last());
        assert(more.drop_last().contains(x));
        let i = choose|i: int| 0 <= i < more.drop_last().len() && more.drop_last()[i] == x;
        assert(more[i] == x);
        x
    } else {
        let x = more.last();
        assert(with_member(before, x).len() > before.len());
        assert(more[more.len() - 1] == x);
        if s.contains(x) {
            assert(before.contains(x));
        }
        x
    }
}

proof fn written_goes(a: SolverV, l: u32, values: Seq<u32>)
    ensures
        st_keeps(a, a.written(l, values)),
        a.written(l, values).worklist == a.worklist,
        a.grows(l, values) ==> exists|e: Event| #[trigger] st_new(a, a.written(l, values), e),
{
    let b = a.written(l, values);
    with_members_hold(a.memory_of(l), values);
    assert forall|e: Event| #[trigger] has_changed(a, e) implies has_changed(b, e) by {
        match e {
            Event::Written(m, x) => {
                if m == l {
                    assert(with_members(a.memory_of(l), values).contains(x));
                }
            },
            _ => {},
        }
    }
    if a.grows(l, values) {
        let x = longer_has_new(a.memory_of(l), values);
        assert(st_new(a, b, Event::Written(l, x)));
    }
}

proof fn stored_at_goes(a: SolverV, pag: PagV, l: u32, values: Seq<u32>, own: Option<LocId>)
    ensures
        ({
            let (b, changed) = a.stored_at(pag, l, values, own);
            &&& st_keeps(a, b)
            &&& b.worklist == a.worklist
            &&& changed ==> exists|e: Event| #[trigger] st_new(a, b, e)
        }),
{
    let (b, changed) = a.stored_at(pag, l, values, own);
    let vs = with_value(pag.writable(a, l, values, values.len() as int), own);
    let s = a.written(l, vs);
    written_goes(a, l, vs);
    match pag.summary_of(LocId(l)) {
        Some(sum) => {
            if s.memory_of(sum.0).len() < SUMMARY_MEM_CAP {
                let ws = with_value(
                    if s.lets_functions_in(sum.0) {
                        values
                    } else {
                        pag.non_functions(values, values.len() as int)
                    },
                    own,
                );
                written_goes(s, sum.0, ws);
                if a.grows(l, vs) {
                    let e = choose|e: Event| #[trigger] st_new(a, s, e);
                    assert(st_new(a, b, e));
                } else if changed {
                    let e = choose|e: Event| #[trigger] st_new(s, b, e);
                    assert(st_new(a, b, e));
                }
            } else {
                same_keeps(s, b);
                if changed {
                    let e = choose|e: Event| #[trigger] st_new(a, s, e);
                    assert(st_new(a, b, e));
                }
            }
        },
        None => {},
    }
}

proof fn stored_goes(
    a: SolverV,
    pag: PagV,
    targets: Seq<u32>,
    values: Seq<u32>,
    own: Option<LocId>,
    n: int,
)
    ensures
        ({
            let (b, again) = a.stored(pag, targets, values, own, n);
            &&& st_keeps(a, b)
            &&& b.worklist == a.worklist
            &&& again.len() > 0 ==> exists|e: Event| #[trigger] st_new(a, b, e)
        }),
    decreases n,
{
    if n > 0 {
        stored_goes(a, pag, targets, values, own, n - 1);
        let (s, again) = a.stored(pag, targets, values, own, n - 1);
        let l = targets[n - 1];
        let (b, all) = a.stored(pag, targets, values, own, n);
        if pag.function_at(LocId(l)) is None {
            stored_at_goes(s, pag, l, values, own);
            let changed = s.stored_at(pag, l, values, own).1;
            if again.len() > 0 {
                let e = choose|e: Event| #[trigger] st_new(a, s, e);
                assert(st_new(a, b, e));
            } else if changed {
                let e = choose|e: Event| #[trigger] st_new(s, b, e);
                assert(st_new(a, b, e));
            }
        }
    }
}

proof fn store_goes(a: SolverV, pag: PagV, i: usize, given: Option<Seq<u32>>)
    ensures
        st_goes(a, a.store(pag, i, given)),
{
    match pag.constraint(i) {
        Some(c) => {
            let values = a.pts_of(c.src.0);
            let own = pag.own_place(c.src);
            if !(values.len() == 0 && own is None) {
                let targets = match given {
                    Some(ts) => ts,
                    None => a.pts_of(c.dst.0),
                };
                stored_goes(a, pag, targets, values, own, targets.len() as int);
                let (s, again) = a.stored(pag, targets, values, own, targets.len() as int);
                let b = a.store(pag, i, given);
                touched_all_leaves(s, again, pag.indices.load_src, again.len() as int);
                same_keeps(s, b);
                if again.len() > 0 {
                    let e = choose|e: Event| #[trigger] st_new(a, s, e);
                    assert(st_new(a, b, e));
                }
            }
        },
        None => {},
    }
}

proof fn caught_up_goes(a: SolverV, pag: PagV, from: int, n: int)
    ensures
        st_goes(a, a.caught_up(pag, from, n)),
    decreases n - from,
{
    if n > from {
        caught_up_goes(a, pag, from, n - 1);
        let s = a.caught_up(pag, from, n - 1);
        let c = pag.constraints[n - 1];
        match c.kind {
            ConstraintKind::Copy => {
                spread_goes(s, c.dst.0, s.pts_of(c.src.0));
            },
            ConstraintKind::AddrOf => {
                match pag.kind_of(c.src) {
                    Some(PagNodeKind::Loc(l)) => {
                        spread_goes(s, c.dst.0, seq![l.0]);
                    },
                    _ => {},
                }
            },
            _ => {},
        }
        st_trans(a, s, a.caught_up(pag, from, n));
    }
}

proof fn run_spread_goes(a: RunV, n: u32, locs: Seq<u32>)
    ensures
        goes(a, a.with_st(a.st.spread(n, locs))),
{
    spread_goes(a.st, n, locs);
    lift(a, a.with_st(a.st.spread(n, locs)));
}

/// A copy keeps what has happened.
proof fn with_copy_keeps(a: RunV, src: PagNodeId, dst: PagNodeId)
    ensures
        keeps(a, a.with_copy(src, dst)),
        same_events(a.st, a.with_copy(src, dst).st),
        a.with_copy(src, dst).resolved == a.resolved,
{
}

proof fn with_param_goes(
    a: RunV,
    p: ProgramV,
    cs: SiteV,
    callee: FnId,
    formal: VarId,
    k: u32,
)
    ensures
        goes(a, a.with_param(p, cs, callee, formal, k)),
{
    let b = a.with_param(p, cs, callee, formal, k);
    match arg_at(cs.var_args, k, 0) {
        Some(actual) => {
            match (a.pag.node_of_var(formal), a.pag.node_of_var(actual)) {
                (Some(f), Some(n)) => {
                    let r = if p.may_hold_pointee(actual) && p.may_hold_pointee(formal) {
                        let st = SolverV {
                            wired_copies: a.st.wired_copies.insert((n.0, f.0)),
                            ..a.st
                        };
                        let s = a.with_st(st);
                        assert forall|e: Event| #[trigger] happened(a, e) implies happened(
                            s,
                            e,
                        ) by {}
                        if a.st.wired_copies.contains((n.0, f.0)) {
                            assert(goes(a, s));
                            s
                        } else {
                            with_copy_keeps(s, n, f);
                            let t = s.with_copy(n, f);
                            assert(happened(s, Event::Wired(n.0, f.0)));
                            assert(is_new(a, t, Event::Wired(n.0, f.0)));
                            assert(goes(a, t));
                            t
                        }
                    } else {
                        refl(a);
                        a
                    };
                    let t = r.with_st(r.st.spread(f.0, r.st.pts_of(n.0)));
                    run_spread_goes(r, f.0, r.st.pts_of(n.0));
                    trans(a, r, t);
                    lift(t, b);
                    trans(a, t, b);
                },
                _ => {
                    refl(a);
                },
            }
        },
        None => {
            match fn_arg_at(cs.fn_args, k, 0) {
                Some(g) => {
                    match a.pag.node_of_var(formal) {
                        Some(f) => {
                            match a.pag.fn_location(g) {
                                Some(l) => {
                                    spread_goes(a.st, f.0, seq![l.0]);
                                },
                                None => {},
                            }
                            lift(a, b);
                        },
                        None => {
                            refl(a);
                        },
                    }
                },
                None => {
                    refl(a);
                },
            }
        },
    }
}

proof fn with_params_goes(
    a: RunV,
    p: ProgramV,
    cs: SiteV,
    callee: FnId,
    params: Seq<VarId>,
    n: int,
)
    ensures
        goes(a, a.with_params(p, cs, callee, params, n)),
    decreases n,
{
    if n <= 0 {
        refl(a);
    } else {
        with_params_goes(a, p, cs, callee, params, n - 1);
        let r = a.with_params(p, cs, callee, params, n - 1);
        with_param_goes(r, p, cs, callee, params[n - 1], (n - 1) as u32);
        trans(a, r, a.with_params(p, cs, callee, params, n));
    }
}

proof fn wired_to_goes(a: RunV, p: ProgramV, cs: SiteV, callee: FnId)
    ensures
        goes(a, a.wired_to(p, cs, callee)),
{
    match p.symbols.function(callee) {
        Some(f) => {
            with_params_goes(a, p, cs, callee, f.params, f.params.len() as int);
        },
        None => {
            refl(a);
        },
    }
}

proof fn with_model_copy_goes(a: RunV, cs: SiteV, dst: u32, src: u32)
    ensures
        goes(a, a.with_model_copy(cs, dst, src)),
{
    match (a.pag.arg_node(cs, dst), a.pag.arg_node(cs, src)) {
        (Some(dn), Some(sn)) => {
            let d = a.pag.side_of(dn);
            let s = a.pag.side_of(sn);
            if a.st.wired_model_edges.contains((s.0, d.0)) {
                refl(a);
            } else {
                let r = a.with_st(
                    SolverV {
                        wired_model_edges: a.st.wired_model_edges.insert((s.0, d.0)),
                        ..a.st
                    },
                );
                let t = r.with_copy(s, d);
                with_copy_keeps(r, s, d);
                assert(happened(r, Event::Modeled(s.0, d.0)));
                assert(is_new(a, t, Event::Modeled(s.0, d.0)));
                assert(goes(a, t));
                run_spread_goes(t, d.0, t.st.pts_of(s.0));
                trans(a, t, a.with_model_copy(cs, dst, src));
            }
        },
        _ => {
            refl(a);
        },
    }
}

proof fn with_model_store_goes(a: RunV, cs: SiteV, ptr: u32, value: u32)
    ensures
        goes(a, a.with_model_store(cs, ptr, value)),
{
    match (a.pag.arg_node(cs, ptr), a.pag.arg_node(cs, value)) {
        (Some(t), Some(v)) => {
            if a.st.wired_model_edges.contains((v.0, t.0)) {
                refl(a);
            } else {
                let b = a.with_model_store(cs, ptr, value);
                let s1 = SolverV {
                    wired_model_edges: a.st.wired_model_edges.insert((v.0, t.0)),
                    ..a.st
                };
                let s2 = s1.pushed(t.0).pushed(v.0);
                assert(st_keeps(a.st, s1));
                same_keeps(s1, s2);
                assert(has_changed(s2, Event::Modeled(v.0, t.0)));
                assert(st_new(a.st, s2, Event::Modeled(v.0, t.0)));
                assert(st_goes(a.st, s2));
                let i = a.pag.constraints.len() as usize;
                store_goes(s2, b.pag, i, None);
                st_trans(a.st, s2, b.st);
                lift(a, b);
            }
        },
        _ => {
            refl(a);
        },
    }
}

proof fn with_effect_goes(a: RunV, cs: SiteV, effect: Effect)
    ensures
        goes(a, a.with_effect(cs, effect)),
{
    refl(a);
    match effect {
        Effect::Alias { dst, src } => {
            with_model_copy_goes(a, cs, dst, src);
        },
        Effect::MemCopy { dst, src } => {
            with_model_copy_goes(a, cs, dst, src);
        },
        Effect::ContentStore { ptr, value } => {
            with_model_store_goes(a, cs, ptr, value);
        },
        Effect::Clears { param } => {
            lift(a, a.with_effect(cs, effect));
        },
        _ => {},
    }
}

proof fn with_effects_goes(a: RunV, cs: SiteV, effects: Seq<Effect>, n: int)
    ensures
        goes(a, a.with_effects(cs, effects, n)),
    decreases n,
{
    if n <= 0 {
        refl(a);
    } else {
        with_effects_goes(a, cs, effects, n - 1);
        let r = a.with_effects(cs, effects, n - 1);
        with_effect_goes(r, cs, effects[n - 1]);
        trans(a, r, a.with_effects(cs, effects, n));
    }
}

proof fn modeled_goes(a: RunV, models: Seq<ModelV>, cs: SiteV, name: Seq<char>)
    ensures
        goes(a, a.modeled(models, cs, name)),
{
    match model_of(models, name, 0) {
        Some(m) => {
            with_effects_goes(a, cs, m.effects, m.effects.len() as int);
        },
        None => {
            refl(a);
        },
    }
}

proof fn with_addresses_goes(a: RunV, node: u32, idxs: Seq<usize>, n: int)
    ensures
        goes(a, a.with_addresses(node, idxs, n)),
    decreases n,
{
    if n <= 0 {
        refl(a);
    } else {
        with_addresses_goes(a, node, idxs, n - 1);
        let r = a.with_addresses(node, idxs, n - 1);
        match r.pag.source_loc(idxs[n - 1]) {
            Some(l) => {
                run_spread_goes(r, node, seq![l.0]);
            },
            None => {
                refl(r);
            },
        }
        trans(a, r, a.with_addresses(node, idxs, n));
    }
}

proof fn with_var_summary_goes(a: RunV, p: ProgramV, src: PagNodeId, field: FieldId, dst: u32)
    ensures
        goes(a, a.with_var_summary(p, src, field, dst)),
{
    refl(a);
    match a.pag.kind_of(src) {
        Some(PagNodeKind::Var(base)) => {
            let (q, s) = a.pag.ensured_var_summary(p, base, field);
            match s {
                Some(l) => {
                    spread_goes(a.st, dst, seq![l.0]);
                    let t = a.st.spread(dst, seq![l.0]);
                    merged_goes(t, dst, l.0);
                    st_trans(a.st, t, t.merged(dst, l.0));
                },
                None => {},
            }
            lift(a, a.with_var_summary(p, src, field, dst));
        },
        _ => {},
    }
}

proof fn with_first_geps_goes(a: RunV, p: ProgramV, idxs: Seq<usize>, n: int)
    ensures
        goes(a, a.with_first_geps(p, idxs, n)),
    decreases n,
{
    if n <= 0 {
        refl(a);
    } else {
        with_first_geps_goes(a, p, idxs, n - 1);
        let r = a.with_first_geps(p, idxs, n - 1);
        refl(r);
        match r.pag.constraint(idxs[n - 1]) {
            Some(c) => {
                match c.field {
                    Some(field) => {
                        with_var_summary_goes(r, p, c.src, field, c.dst.0);
                    },
                    None => {},
                }
            },
            None => {},
        }
        trans(a, r, a.with_first_geps(p, idxs, n));
    }
}

proof fn first_look_goes(a: RunV, p: ProgramV, node: u32)
    ensures
        goes(a, a.first_look(p, node)),
{
    if a.st.seen_once.contains(node) {
        refl(a);
    } else {
        let r = a.with_st(SolverV { seen_once: a.st.seen_once.insert(node), ..a.st });
        same_keeps(a.st, r.st);
        lift(a, r);
        let addrs = list_of(r.pag.indices.addr_of_dst, node);
        with_addresses_goes(r, node, addrs, addrs.len() as int);
        let s = r.with_addresses(node, addrs, addrs.len() as int);
        trans(a, r, s);
        let geps = list_of(s.pag.indices.gep_src, node);
        with_first_geps_goes(s, p, geps, geps.len() as int);
        trans(a, s, a.first_look(p, node));
    }
}

proof fn with_copies_goes(a: RunV, delta: Seq<u32>, idxs: Seq<usize>, n: int)
    ensures
        goes(a, a.with_copies(delta, idxs, n)),
    decreases n,
{
    if n <= 0 {
        refl(a);
    } else {
        with_copies_goes(a, delta, idxs, n - 1);
        let r = a.with_copies(delta, idxs, n - 1);
        match r.pag.constraint(idxs[n - 1]) {
            Some(c) => {
                run_spread_goes(r, c.dst.0, delta);
            },
            None => {
                refl(r);
            },
        }
        trans(a, r, a.with_copies(delta, idxs, n));
    }
}

proof fn with_loaded_goes(a: RunV, dst: u32, delta: Seq<u32>, k: int)
    ensures
        goes(a, a.with_loaded(dst, delta, k)),
    decreases k,
{
    if k <= 0 {
        refl(a);
    } else {
        with_loaded_goes(a, dst, delta, k - 1);
        let r = a.with_loaded(dst, delta, k - 1);
        if r.pag.function_at(LocId(delta[k - 1])) is Some {
            run_spread_goes(r, dst, seq![delta[k - 1]]);
        } else {
            merged_goes(r.st, dst, delta[k - 1]);
            lift(r, a.with_loaded(dst, delta, k));
        }
        trans(a, r, a.with_loaded(dst, delta, k));
    }
}

proof fn with_loads_goes(a: RunV, delta: Seq<u32>, idxs: Seq<usize>, n: int)
    ensures
        goes(a, a.with_loads(delta, idxs, n)),
    decreases n,
{
    if n <= 0 {
        refl(a);
    } else {
        with_loads_goes(a, delta, idxs, n - 1);
        let r = a.with_loads(delta, idxs, n - 1);
        match r.pag.constraint(idxs[n - 1]) {
            Some(c) => {
                with_loaded_goes(r, c.dst.0, delta, delta.len() as int);
            },
            None => {
                refl(r);
            },
        }
        trans(a, r, a.with_loads(delta, idxs, n));
    }
}

proof fn with_stores_goes(a: RunV, given: Option<Seq<u32>>, idxs: Seq<usize>, n: int)
    ensures
        goes(a, a.with_stores(given, idxs, n)),
    decreases n,
{
    if n <= 0 {
        refl(a);
    } else {
        with_stores_goes(a, given, idxs, n - 1);
        let r = a.with_stores(given, idxs, n - 1);
        store_goes(r.st, r.pag, idxs[n - 1], given);
        lift(r, a.with_stores(given, idxs, n));
        trans(a, r, a.with_stores(given, idxs, n));
    }
}

proof fn with_array_members_goes(a: RunV, array: VarId, dst: u32)
    ensures
        goes(a, a.with_array_members(array, dst)),
{
    let fns = loc_numbers(list_of(a.pag.array_fn_members, array.0));
    spread_each_goes(a.st, dst, fns, fns.len() as int);
    lift(a, a.with_array_members(array, dst));
}

proof fn with_function_field_goes(
    a: RunV,
    p: ProgramV,
    src: PagNodeId,
    dst: u32,
    field: FieldId,
    l: u32,
    f: FnId,
)
    ensures
        goes(a, a.with_function_field(p, src, dst, field, l, f)),
{
    refl(a);
    run_spread_goes(a, dst, seq![l]);
    match a.pag.kind_of(src) {
        Some(PagNodeKind::Var(v)) => {
            with_array_members_goes(a, v, dst);
        },
        _ => {},
    }
}

proof fn with_object_field_goes(a: RunV, p: ProgramV, dst: u32, field: FieldId, l: u32)
    ensures
        goes(a, a.with_object_field(p, dst, field, l).0),
{
    let b = a.with_object_field(p, dst, field, l).0;
    let (q, fl) = a.pag.ensured_field(p, LocId(l), field);
    match fl {
        Some(place) => {
            let st = match q.summary_of(place) {
                Some(sum) => {
                    let s1 = a.st.spread(dst, seq![place.0, sum.0]);
                    spread_goes(a.st, dst, seq![place.0, sum.0]);
                    merged_goes(s1, dst, place.0);
                    let s2 = s1.merged(dst, place.0);
                    st_trans(a.st, s1, s2);
                    merged_goes(s2, dst, sum.0);
                    st_trans(a.st, s2, s2.merged(dst, sum.0));
                    s2.merged(dst, sum.0)
                },
                None => {
                    let s1 = a.st.spread(dst, seq![place.0]);
                    spread_goes(a.st, dst, seq![place.0]);
                    merged_goes(s1, dst, place.0);
                    st_trans(a.st, s1, s1.merged(dst, place.0));
                    s1.merged(dst, place.0)
                },
            };
            let r = RunV { pag: q, st, ..a };
            lift(a, r);
            refl(r);
            match q.location(LocId(l)) {
                Some(loc) => {
                    match loc.var {
                        Some(owner) => {
                            with_array_members_goes(r, owner, dst);
                        },
                        None => {},
                    }
                },
                None => {},
            }
            trans(a, r, b);
        },
        None => {
            lift(a, b);
        },
    }
}

proof fn with_gep_locs_goes(
    a: RunV,
    p: ProgramV,
    c: ConstraintV,
    field: FieldId,
    delta: Seq<u32>,
    k: int,
)
    ensures
        goes(a, a.with_gep_locs(p, c, field, delta, k).0),
    decreases k,
{
    if k <= 0 {
        refl(a);
    } else {
        with_gep_locs_goes(a, p, c, field, delta, k - 1);
        let r = a.with_gep_locs(p, c, field, delta, k - 1).0;
        let l = delta[k - 1];
        refl(r);
        if r.field_fits(p, l, field, c.field_name) {
            match r.pag.function_at(LocId(l)) {
                Some(f) => {
                    with_function_field_goes(r, p, c.src, c.dst.0, field, l, f);
                },
                None => {
                    with_object_field_goes(r, p, c.dst.0, field, l);
                },
            }
        }
        trans(a, r, a.with_gep_locs(p, c, field, delta, k).0);
    }
}

proof fn with_gep_goes(a: RunV, look: LookV, i: usize)
    ensures
        goes(a, a.with_gep(look, i)),
{
    refl(a);
    match a.pag.constraint(i) {
        Some(c) => {
            match c.field {
                Some(field) => {
                    let n = look.delta.len() as int;
                    with_gep_locs_goes(a, look.p, c, field, look.delta, n);
                    let r = a.with_gep_locs(look.p, c, field, look.delta, n).0;
                    with_var_summary_goes(r, look.p, c.src, field, c.dst.0);
                    trans(a, r, r.with_var_summary(look.p, c.src, field, c.dst.0));
                },
                None => {},
            }
        },
        None => {},
    }
}

proof fn with_geps_goes(a: RunV, look: LookV, idxs: Seq<usize>, n: int)
    ensures
        goes(a, a.with_geps(look, idxs, n)),
    decreases n,
{
    if n <= 0 {
        refl(a);
    } else {
        with_geps_goes(a, look, idxs, n - 1);
        let r = a.with_geps(look, idxs, n - 1);
        with_gep_goes(r, look, idxs[n - 1]);
        trans(a, r, a.with_geps(look, idxs, n));
    }
}

proof fn with_named_goes(a: RunV, fns: Seq<FnV>, name: Seq<char>, dst: u32, n: int)
    ensures
        goes(a, a.with_named(fns, name, dst, n)),
    decreases n,
{
    if n <= 0 {
        refl(a);
    } else {
        with_named_goes(a, fns, name, dst, n - 1);
        let r = a.with_named(fns, name, dst, n - 1);
        refl(r);
        if fns[n - 1].name == name {
            match r.pag.fn_location(fns[n - 1].id) {
                Some(l) => {
                    run_spread_goes(r, dst, seq![l.0]);
                },
                None => {},
            }
        }
        trans(a, r, a.with_named(fns, name, dst, n));
    }
}

proof fn with_looked_up_goes(a: RunV, p: ProgramV, dst: u32, delta: Seq<u32>, k: int)
    ensures
        goes(a, a.with_looked_up(p, dst, delta, k)),
    decreases k,
{
    if k <= 0 {
        refl(a);
    } else {
        with_looked_up_goes(a, p, dst, delta, k - 1);
        let r = a.with_looked_up(p, dst, delta, k - 1);
        refl(r);
        match r.pag.location(LocId(delta[k - 1])) {
            Some(loc) => {
                let fns = p.symbols.functions;
                with_named_goes(r, fns, loc.desc, dst, fns.len() as int);
            },
            None => {},
        }
        trans(a, r, a.with_looked_up(p, dst, delta, k));
    }
}

proof fn with_lookups_goes(a: RunV, look: LookV, idxs: Seq<usize>, n: int)
    ensures
        goes(a, a.with_lookups(look, idxs, n)),
    decreases n,
{
    if n <= 0 {
        refl(a);
    } else {
        with_lookups_goes(a, look, idxs, n - 1);
        let r = a.with_lookups(look, idxs, n - 1);
        refl(r);
        match r.pag.constraint(idxs[n - 1]) {
            Some(c) => {
                with_looked_up_goes(r, look.p, c.dst.0, look.delta, look.delta.len() as int);
            },
            None => {},
        }
        trans(a, r, a.with_lookups(look, idxs, n));
    }
}

/// What a function returns keeps what has happened.
proof fn with_returns_keeps(a: RunV, p: ProgramV, models: Seq<ModelV>, cs: SiteV, callee: FnId)
    ensures
        keeps(a, a.with_returns(p, models, cs, callee)),
{
    match cs.callee_var {
        Some(v) => {
            if a.pag.indirect_return_dst.contains_key(v.0) {
                let b = a.with_returns(p, models, cs, callee);
                let from = a.pag.constraints.len() as int;
                let q = a.pag.with_returns_of(
                    p,
                    models,
                    PagNodeId(a.pag.indirect_return_dst[v.0]),
                    callee,
                );
                let again = node_numbers(q.touched(from, q.constraints.len() as int));
                let st = a.st.pushed_all(again, again.len() as int);
                pushed_all_leaves(a.st, again, again.len() as int);
                same_keeps(a.st, st);
                caught_up_goes(st, b.pag, from, b.pag.constraints.len() as int);
                assert(b.st == st.caught_up(b.pag, from, b.pag.constraints.len() as int));
                assert forall|e: Event| #[trigger] happened(a, e) implies happened(b, e) by {
                    assert(has_changed(a.st, e) ==> has_changed(st, e));
                    assert(has_changed(st, e) ==> has_changed(b.st, e));
                }
            }
        },
        None => {},
    }
}

proof fn with_callee_goes(a: RunV, p: ProgramV, models: Seq<ModelV>, cs: SiteV, callee: FnId)
    ensures
        goes(a, a.with_callee(p, models, cs, callee)),
{
    let known = list_of(a.resolved, cs.id.0);
    let b = a.with_callee(p, models, cs, callee);
    if known.contains(callee) {
        refl(a);
    } else {
        let r0 = RunV {
            resolved: a.resolved.insert(cs.id.0, known.push(callee)),
            edges: a.edges.push(
                CallGraphEdge {
                    call_site: cs.id,
                    caller: cs.caller,
                    callee,
                    resolution: ResolutionKind::Indirect,
                },
            ),
            ..a
        };
        assert forall|e: Event| #[trigger] happened(a, e) implies happened(r0, e) by {
            match e {
                Event::Reached(s, f) => {
                    push_holds(known, callee, FnId(f));
                },
                _ => {},
            }
        }
        let e = Event::Reached(cs.id.0, callee.0);
        push_holds(known, callee, callee);
        assert(is_new(a, r0, e));
        let r1 = r0.wired_to(p, cs, callee);
        wired_to_goes(r0, p, cs, callee);
        let r2 = r1.with_returns(p, models, cs, callee);
        with_returns_keeps(r1, p, models, cs, callee);
        match p.symbols.function(callee) {
            Some(f) => {
                modeled_goes(r2, models, cs, f.name);
            },
            None => {},
        }
        assert(keeps(r0, r1) && keeps(r1, r2) && keeps(r2, b));
        assert(happened(r1, e) && happened(r2, e));
        assert(is_new(a, b, e));
        assert(keeps(a, b));
    }
}

proof fn with_callees_goes(
    a: RunV,
    p: ProgramV,
    models: Seq<ModelV>,
    cs: SiteV,
    callees: Seq<FnId>,
    n: int,
)
    ensures
        goes(a, a.with_callees(p, models, cs, callees, n)),
    decreases n,
{
    if n <= 0 {
        refl(a);
    } else {
        with_callees_goes(a, p, models, cs, callees, n - 1);
        let r = a.with_callees(p, models, cs, callees, n - 1);
        with_callee_goes(r, p, models, cs, callees[n - 1]);
        trans(a, r, a.with_callees(p, models, cs, callees, n));
    }
}

proof fn with_indirect_goes(a: RunV, look: LookV, sites: Seq<CallSiteId>, n: int)
    ensures
        goes(a, a.with_indirect(look, sites, n)),
    decreases n,
{
    if n <= 0 {
        refl(a);
    } else {
        with_indirect_goes(a, look, sites, n - 1);
        let r = a.with_indirect(look, sites, n - 1);
        refl(r);
        match look.p.site(sites[n - 1]) {
            Some(cs) => {
                let callees = r.reached(look.p, look.delta, look.delta.len() as int);
                with_callees_goes(r, look.p, look.models, cs, callees, callees.len() as int);
            },
            None => {},
        }
        trans(a, r, a.with_indirect(look, sites, n));
    }
}

proof fn travelled_goes(a: RunV, look: LookV)
    ensures
        goes(a, a.travelled(look)),
{
    let node = look.node;
    let copies = list_of(a.pag.indices.copy_src, node);
    let r1 = a.with_copies(look.delta, copies, copies.len() as int);
    with_copies_goes(a, look.delta, copies, copies.len() as int);
    let addrs = list_of(r1.pag.indices.addr_of_dst, node);
    let r2 = r1.with_addresses(node, addrs, addrs.len() as int);
    with_addresses_goes(r1, node, addrs, addrs.len() as int);
    trans(a, r1, r2);
    let loads = list_of(r2.pag.indices.load_src, node);
    let r3 = r2.with_loads(look.delta, loads, loads.len() as int);
    with_loads_goes(r2, look.delta, loads, loads.len() as int);
    trans(a, r2, r3);
    let into = list_of(r3.pag.indices.store_dst, node);
    let r4 = r3.with_stores(Some(look.delta), into, into.len() as int);
    with_stores_goes(r3, Some(look.delta), into, into.len() as int);
    trans(a, r3, r4);
    let from = list_of(r4.pag.indices.store_src, node);
    let r5 = r4.with_stores(None, from, from.len() as int);
    with_stores_goes(r4, None, from, from.len() as int);
    trans(a, r4, r5);
    let geps = list_of(r5.pag.indices.gep_src, node);
    let r6 = r5.with_geps(look, geps, geps.len() as int);
    with_geps_goes(r5, look, geps, geps.len() as int);
    trans(a, r5, r6);
    let lookups = list_of(r6.pag.indices.dlsym_src, node);
    let r7 = r6.with_lookups(look, lookups, lookups.len() as int);
    with_lookups_goes(r6, look, lookups, lookups.len() as int);
    trans(a, r6, r7);
    let calls = list_of(r7.pag.indices.indirect_by_target, node);
    with_indirect_goes(r7, look, calls, calls.len() as int);
    trans(a, r7, a.travelled(look));
}

/// A look leaves less that can happen, or as much and fewer nodes to look at.
pub proof fn step_ends(a: RunV, p: ProgramV, models: Seq<ModelV>)
    requires
        a.st.worklist.len() > 0,
    ensures
        to_come(a.step(p, models)).len() < to_come(a).len() || (to_come(a.step(p, models)).len()
            == to_come(a).len() && a.step(p, models).st.worklist.len() < a.st.worklist.len()),
{
    let node = a.st.worklist.last();
    let st = SolverV {
        worklist: a.st.worklist.drop_last(),
        queued: a.st.queued.remove(node),
        ..a.st
    };
    let delta = list_of(st.delta, node);
    let r = a.with_st(st.taken(node));
    let t = SolverV { delta: st.delta.remove(node), ..st };
    forgotten_leaves(t, node, delta, delta.len() as int);
    same_keeps(a.st, r.st);
    let b = a.step(p, models);
    if delta.len() == 0 {
        first_look_goes(r, p, node);
    } else {
        travelled_goes(r, LookV { p, models, node, delta });
    }
    assert forall|e: Event| #[trigger] happened(r, e) == happened(a, e) by {
        assert(has_changed(r.st, e) == has_changed(a.st, e));
    }
    events_are_finite(to_come(a));
    events_are_finite(to_come(b));
    assert forall|e: Event| #[trigger] to_come(b).contains(e) implies to_come(a).contains(e) by {
        if happened(a, e) {
            assert(happened(r, e));
        }
    }
    if exists|e: Event| #[trigger] is_new(r, b, e) {
        let e = choose|e: Event| #[trigger] is_new(r, b, e);
        assert(!happened(a, e)) by {
            assert(happened(r, e) == happened(a, e));
        }
        assert(to_come(a).contains(e));
        assert(!to_come(b).contains(e));
        to_come(b).lemma_subset_not_in_lt(to_come(a), e);
    } else {
        assert forall|e: Event| #[trigger] to_come(a).contains(e) implies to_come(b).contains(
            e,
        ) by {
            if happened(b, e) {
                assert(happened(r, e) == happened(a, e));
                assert(is_new(r, b, e));
            }
        }
        assert(to_come(a) =~= to_come(b));
    }
}

impl RunV {
    /// How many looks it takes until there is nothing left to look at.
    pub open spec fn looks_left(self, p: ProgramV, models: Seq<ModelV>) -> nat
        decreases to_come(self).len(), self.st.worklist.len(),
    {
        if self.st.worklist.len() == 0 {
            0
        } else {
            proof {
                step_ends(self, p, models);
            }
            1 + self.step(p, models).looks_left(p, models)
        }
    }
}

/// Solving without a limit comes to an end: after so many looks there is
/// nothing left to look at.
pub proof fn solving_ends(r: RunV, p: ProgramV, models: Seq<ModelV>)
    ensures
        r.settles(p, models, r.looks_left(p, models)),
    decreases to_come(r).len(), r.st.worklist.len(),
{
    if r.st.worklist.len() > 0 {
        step_ends(r, p, models);
        solving_ends(r.step(p, models), p, models);
    }
}

} // verus!
