//! What nodes and places are known to hold while the graph is solved.
//!
//! Only what is new at a node travels on: every node keeps the locations that
//! it has gained since it was looked at last.

use crate::analysis::pag::{list_of, lists, with_listed};
use crate::collections::{
    fx_get, fx_insert, fx_map, fx_remove, fx_set, fx_set_contains, fx_set_insert, fx_set_remove,
    index_members, index_set, index_set_at, index_set_contains, index_set_insert, index_set_len,
    with_member,
};
use indexmap::IndexSet;
use rustc_hash::{FxHashMap, FxHashSet};
use std::hash::RandomState;
use crate::text::take_push;
use vstd::prelude::*;

verus! {

/// What is known of the type of the value that a place holds.
#[derive(Debug, Clone, Copy, PartialEq, Eq, Structural)]
pub enum SlotGuard {
    /// A pointer to a function with so many parameters.
    FnParams(usize),
    /// Something that is no pointer to a function.
    NotFnPtr,
}

/// The state of the solver.
#[verifier::ext_equal]
pub struct SolverV {
    /// What each node may hold.
    pub pts: Map<u32, Seq<u32>>,
    /// What each node has gained since it was looked at last.
    pub delta: Map<u32, Seq<u32>>,
    pub delta_pending: Set<(u32, u32)>,
    /// What each place may hold.
    pub memory: Map<u32, Seq<u32>>,
    /// Which nodes may hold a location.
    pub loc_nodes: Map<u32, Seq<u32>>,
    pub worklist: Seq<u32>,
    pub queued: Set<u32>,
    /// The nodes whose constraints that need no points-to set have been
    /// applied.
    pub seen_once: Set<u32>,
    /// The summaries that hold as much as they can.
    pub saturated: Set<u32>,
    pub wired_copies: Set<(u32, u32)>,
    pub wired_model_edges: Set<(u32, u32)>,
    pub slot_guard: Map<u32, SlotGuard>,
    /// How many parameters a function has, by its location; none for a
    /// function without parameters.
    pub fn_arity: Map<u32, usize>,
    /// The locations of functions.
    pub fn_locs: Set<u32>,
    /// How much of a place's contents a node has seen.
    pub merge_sizes: Map<(u32, u32), usize>,
}

/// With the members that are not there yet, in order.
pub open spec fn with_members(s: Seq<u32>, more: Seq<u32>) -> Seq<u32>
    decreases more.len(),
{
    if more.len() == 0 {
        s
    } else {
        with_member(with_members(s, more.drop_last()), more.last())
    }
}

/// Those of the first `n` of `locs` that `known` does not hold.
pub open spec fn fresh(known: Seq<u32>, locs: Seq<u32>, n: int) -> Seq<u32>
    decreases n,
{
    if n <= 0 {
        Seq::empty()
    } else if known.contains(locs[n - 1]) {
        fresh(known, locs, n - 1)
    } else {
        fresh(known, locs, n - 1).push(locs[n - 1])
    }
}

impl SolverV {
    /// Nothing known, nothing to do.
    pub open spec fn empty() -> SolverV {
        SolverV {
            pts: Map::empty(),
            delta: Map::empty(),
            delta_pending: Set::empty(),
            memory: Map::empty(),
            loc_nodes: Map::empty(),
            worklist: Seq::empty(),
            queued: Set::empty(),
            seen_once: Set::empty(),
            saturated: Set::empty(),
            wired_copies: Set::empty(),
            wired_model_edges: Set::empty(),
            slot_guard: Map::empty(),
            fn_arity: Map::empty(),
            fn_locs: Set::empty(),
            merge_sizes: Map::empty(),
        }
    }

    /// What a node may hold.
    pub open spec fn pts_of(self, n: u32) -> Seq<u32> {
        list_of(self.pts, n)
    }

    /// What a place may hold.
    pub open spec fn memory_of(self, l: u32) -> Seq<u32> {
        list_of(self.memory, l)
    }

    /// Whether a function may be held by a place: a pointer to a function
    /// holds functions with as many parameters, a place of another known type
    /// holds none, and any other place holds all.
    pub open spec fn allows(self, slot: u32, fn_loc: u32) -> bool {
        if self.slot_guard.contains_key(slot) {
            match self.slot_guard[slot] {
                SlotGuard::FnParams(n) => self.fn_arity.contains_key(fn_loc)
                    ==> self.fn_arity[fn_loc] == n,
                SlotGuard::NotFnPtr => false,
            }
        } else {
            true
        }
    }

    /// Whether a place lets a location out: it keeps back only functions that
    /// it may not hold.
    pub open spec fn lets_out(self, mem: u32, l: u32) -> bool {
        !self.fn_locs.contains(l) || self.allows(mem, l)
    }

    /// With a node among those to look at.
    pub open spec fn pushed(self, n: u32) -> SolverV {
        if self.queued.contains(n) {
            self
        } else {
            SolverV {
                queued: self.queued.insert(n),
                worklist: self.worklist.push(n),
                ..self
            }
        }
    }

    /// With the first `k` nodes among those to look at.
    pub open spec fn pushed_all(self, nodes: Seq<u32>, k: int) -> SolverV
        decreases k,
    {
        if k <= 0 {
            self
        } else {
            self.pushed_all(nodes, k - 1).pushed(nodes[k - 1])
        }
    }

    /// With the first `k` locations as news at a node.
    pub open spec fn recorded(self, n: u32, locs: Seq<u32>, k: int) -> SolverV
        decreases k,
    {
        if k <= 0 {
            self
        } else {
            let s = self.recorded(n, locs, k - 1);
            if s.delta_pending.contains((n, locs[k - 1])) {
                s
            } else {
                SolverV {
                    delta_pending: s.delta_pending.insert((n, locs[k - 1])),
                    delta: with_listed(s.delta, n, locs[k - 1]),
                    ..s
                }
            }
        }
    }

    /// With a node among those that may hold the first `k` locations.
    pub open spec fn held(self, n: u32, locs: Seq<u32>, k: int) -> SolverV
        decreases k,
    {
        if k <= 0 {
            self
        } else {
            let s = self.held(n, locs, k - 1);
            SolverV {
                loc_nodes: s.loc_nodes.insert(
                    locs[k - 1],
                    with_member(list_of(s.loc_nodes, locs[k - 1]), n),
                ),
                ..s
            }
        }
    }

    /// Locations reach a node.
    pub open spec fn spread(self, n: u32, locs: Seq<u32>) -> SolverV {
        let news = fresh(self.pts_of(n), locs, locs.len() as int);
        if news.len() == 0 {
            self
        } else {
            (SolverV {
                pts: self.pts.insert(n, with_members(self.pts_of(n), news)),
                ..self
            }).held(n, news, news.len() as int).recorded(n, news, news.len() as int).pushed(n)
        }
    }

    /// The first `k` locations reach a node one after the other.
    pub open spec fn spread_each(self, n: u32, locs: Seq<u32>, k: int) -> SolverV
        decreases k,
    {
        if k <= 0 {
            self
        } else {
            self.spread_each(n, locs, k - 1).spread(n, seq![locs[k - 1]])
        }
    }

    /// How much of a place's contents a node has seen.
    pub open spec fn seen_of(self, n: u32, mem: u32) -> usize {
        if self.merge_sizes.contains_key((n, mem)) {
            self.merge_sizes[(n, mem)]
        } else {
            0
        }
    }

    /// What a place holds at the positions from `from` up to `to` and lets out.
    pub open spec fn let_out(self, mem: u32, from: int, to: int) -> Seq<u32>
        decreases to - from,
    {
        if to <= from {
            Seq::empty()
        } else if self.lets_out(mem, self.memory_of(mem)[to - 1]) {
            self.let_out(mem, from, to - 1).push(self.memory_of(mem)[to - 1])
        } else {
            self.let_out(mem, from, to - 1)
        }
    }

    /// What a place holds and a node has not seen reaches the node.
    pub open spec fn merged(self, n: u32, mem: u32) -> SolverV {
        let seen = self.seen_of(n, mem) as int;
        let len = self.memory_of(mem).len() as int;
        if len <= seen {
            self
        } else {
            let s = self.spread(n, self.let_out(mem, seen, len));
            SolverV { merge_sizes: s.merge_sizes.insert((n, mem), len as usize), ..s }
        }
    }

    /// A place has changed: the first `k` of the nodes that may hold it, as
    /// far as they are loaded from, must look at it again.
    pub open spec fn touched(
        self,
        loc: u32,
        nodes: Seq<u32>,
        load_src: Map<u32, Seq<usize>>,
        k: int,
    ) -> SolverV
        decreases k,
    {
        if k <= 0 {
            self
        } else {
            let s = self.touched(loc, nodes, load_src, k - 1);
            if load_src.contains_key(nodes[k - 1]) {
                s.recorded(nodes[k - 1], seq![loc], 1).pushed(nodes[k - 1])
            } else {
                s
            }
        }
    }

    /// The first `k` places have changed.
    pub open spec fn touched_all(
        self,
        locs: Seq<u32>,
        load_src: Map<u32, Seq<usize>>,
        k: int,
    ) -> SolverV
        decreases k,
    {
        if k <= 0 {
            self
        } else {
            let s = self.touched_all(locs, load_src, k - 1);
            let nodes = list_of(s.loc_nodes, locs[k - 1]);
            s.touched(locs[k - 1], nodes, load_src, nodes.len() as int)
        }
    }

    /// Without the first `k` of what a node has gained.
    pub open spec fn forgotten(self, n: u32, locs: Seq<u32>, k: int) -> SolverV
        decreases k,
    {
        if k <= 0 {
            self
        } else {
            let s = self.forgotten(n, locs, k - 1);
            SolverV { delta_pending: s.delta_pending.remove((n, locs[k - 1])), ..s }
        }
    }

    /// Without the news of a node.
    pub open spec fn taken(self, n: u32) -> SolverV {
        let news = list_of(self.delta, n);
        (SolverV { delta: self.delta.remove(n), ..self }).forgotten(n, news, news.len() as int)
    }
}

/// The state of the solver.
pub struct SolverState {
    pts: FxHashMap<u32, IndexSet<u32, RandomState>>,
    delta: FxHashMap<u32, Vec<u32>>,
    delta_pending: FxHashSet<(u32, u32)>,
    memory: FxHashMap<u32, IndexSet<u32, RandomState>>,
    loc_nodes: FxHashMap<u32, IndexSet<u32, RandomState>>,
    worklist: Vec<u32>,
    queued: FxHashSet<u32>,
    seen_once: FxHashSet<u32>,
    saturated: FxHashSet<u32>,
    wired_copies: FxHashSet<(u32, u32)>,
    wired_model_edges: FxHashSet<(u32, u32)>,
    slot_guard: FxHashMap<u32, SlotGuard>,
    fn_arity: FxHashMap<u32, usize>,
    fn_locs: FxHashSet<u32>,
    merge_sizes: FxHashMap<(u32, u32), usize>,
}

/// A map to sets, over what the sets hold.
pub open spec fn members(m: Map<u32, IndexSet<u32, RandomState>>) -> Map<u32, Seq<u32>> {
    m.map_values(|s: IndexSet<u32, RandomState>| index_members(s))
}

impl View for SolverState {
    type V = SolverV;

    closed spec fn view(&self) -> SolverV {
        SolverV {
            pts: members(self.pts@),
            delta: lists(self.delta@),
            delta_pending: self.delta_pending@,
            memory: members(self.memory@),
            loc_nodes: members(self.loc_nodes@),
            worklist: self.worklist@,
            queued: self.queued@,
            seen_once: self.seen_once@,
            saturated: self.saturated@,
            wired_copies: self.wired_copies@,
            wired_model_edges: self.wired_model_edges@,
            slot_guard: self.slot_guard@,
            fn_arity: self.fn_arity@,
            fn_locs: self.fn_locs@,
            merge_sizes: self.merge_sizes@,
        }
    }
}

/// The members of a key's set.
fn members_of(m: &FxHashMap<u32, IndexSet<u32, RandomState>>, k: u32) -> (r: Vec<u32>)
    ensures
        r@ == list_of(members(m@), k),
{
    let mut out: Vec<u32> = Vec::new();
    if let Some(set) = fx_get(m, k) {
        let n = index_set_len(set);
        let mut i: usize = 0;
        while i < n
            invariant
                i <= n == index_members(*set).len(),
                out@ == index_members(*set).take(i as int),
            decreases n - i,
        {
            out.push(index_set_at(set, i));
            proof {
                take_push(index_members(*set), i as int);
            }
            i = i + 1;
        }
        assert(index_members(*set).take(i as int) =~= index_members(*set));
    } else {
        assert(out@ =~= Seq::empty());
    }
    out
}

/// Adds members to a key's set, and tells whether the set has grown.
fn add_members(m: &mut FxHashMap<u32, IndexSet<u32, RandomState>>, k: u32, more: &Vec<u32>) -> (r:
    bool)
    ensures
        members(final(m)@) == members(old(m)@).insert(
            k,
            with_members(list_of(members(old(m)@), k), more@),
        ),
        r == (with_members(list_of(members(old(m)@), k), more@).len() > list_of(
            members(old(m)@),
            k,
        ).len()),
{
    let ghost start = list_of(members(m@), k);
    let mut set = match fx_remove(m, k) {
        Some(s) => s,
        None => index_set(),
    };
    assert(index_members(set) =~= start);
    let before = index_set_len(&set);
    let mut i: usize = 0;
    assert(more@.take(0) =~= Seq::empty());
    while i < more.len()
        invariant
            i <= more@.len(),
            index_members(set) == with_members(start, more@.take(i as int)),
        decreases more@.len() - i,
    {
        index_set_insert(&mut set, more[i]);
        assert(more@.take(i + 1).drop_last() =~= more@.take(i as int));
        i = i + 1;
    }
    assert(more@.take(i as int) =~= more@);
    let after = index_set_len(&set);
    fx_insert(m, k, set);
    assert(members(m@) =~= members(old(m)@).insert(k, with_members(start, more@)));
    after > before
}

fn one(x: u32) -> (r: Vec<u32>)
    ensures
        r@ == seq![x],
{
    let mut v: Vec<u32> = Vec::new();
    v.push(x);
    assert(v@ =~= seq![x]);
    v
}

/// Adding one member is adding a list of one.
pub proof fn with_members_one(s: Seq<u32>, x: u32)
    ensures
        with_members(s, seq![x]) == with_member(s, x),
{
    assert(seq![x].drop_last() =~= Seq::empty());
    assert(with_members(s, seq![x].drop_last()) == s);
}

impl SolverState {
    pub fn new() -> (r: SolverState)
        ensures
            r@ == SolverV::empty(),
    {
        let r = SolverState {
            pts: fx_map(),
            delta: fx_map(),
            delta_pending: fx_set(),
            memory: fx_map(),
            loc_nodes: fx_map(),
            worklist: Vec::new(),
            queued: fx_set(),
            seen_once: fx_set(),
            saturated: fx_set(),
            wired_copies: fx_set(),
            wired_model_edges: fx_set(),
            slot_guard: fx_map(),
            fn_arity: fx_map(),
            fn_locs: fx_set(),
            merge_sizes: fx_map(),
        };
        assert(r@.pts =~= Map::empty());
        assert(r@.delta =~= Map::empty());
        assert(r@.memory =~= Map::empty());
        assert(r@.loc_nodes =~= Map::empty());
        r
    }

    /// What a node may hold.
    pub fn pts_of(&self, n: u32) -> (r: Vec<u32>)
        ensures
            r@ == self@.pts_of(n),
    {
        members_of(&self.pts, n)
    }

    /// Whether nothing is known that a node may hold.
    pub fn holds_nothing(&self, n: u32) -> (r: bool)
        ensures
            r == (self@.pts_of(n).len() == 0),
    {
        match fx_get(&self.pts, n) {
            Some(s) => index_set_len(s) == 0,
            None => true,
        }
    }

    /// Whether a function may be held by a place.
    pub fn arity_allows(&self, slot: u32, fn_loc: u32) -> (r: bool)
        ensures
            r == self@.allows(slot, fn_loc),
    {
        match fx_get(&self.slot_guard, slot) {
            Some(SlotGuard::FnParams(n)) => match fx_get(&self.fn_arity, fn_loc) {
                Some(p) => *p == *n,
                None => true,
            },
            Some(SlotGuard::NotFnPtr) => false,
            None => true,
        }
    }

    /// Whether a place lets a location out.
    pub fn lets_out(&self, mem: u32, l: u32) -> (r: bool)
        ensures
            r == self@.lets_out(mem, l),
    {
        !fx_set_contains(&self.fn_locs, l) || self.arity_allows(mem, l)
    }

    /// Whether a place's type lets functions in at all.
    pub fn lets_functions_in(&self, slot: u32) -> (r: bool)
        ensures
            r == !(self@.slot_guard.contains_key(slot) && self@.slot_guard[slot]
                == SlotGuard::NotFnPtr),
    {
        match fx_get(&self.slot_guard, slot) {
            Some(SlotGuard::NotFnPtr) => false,
            _ => true,
        }
    }

    pub fn guard(&mut self, slot: u32, g: SlotGuard)
        ensures
            final(self)@ == (SolverV {
                slot_guard: old(self)@.slot_guard.insert(slot, g),
                ..old(self)@
            }),
    {
        fx_insert(&mut self.slot_guard, slot, g);
    }

    /// Notes that a location is that of a function.
    pub fn note_function(&mut self, l: u32)
        ensures
            final(self)@ == (SolverV { fn_locs: old(self)@.fn_locs.insert(l), ..old(self)@ }),
    {
        fx_set_insert(&mut self.fn_locs, l);
    }

    pub fn set_arity(&mut self, fn_loc: u32, n: usize)
        ensures
            final(self)@ == (SolverV {
                fn_arity: old(self)@.fn_arity.insert(fn_loc, n),
                ..old(self)@
            }),
    {
        fx_insert(&mut self.fn_arity, fn_loc, n);
    }

    /// Puts a node among those to look at.
    pub fn push(&mut self, n: u32)
        ensures
            final(self)@ == old(self)@.pushed(n),
    {
        if fx_set_insert(&mut self.queued, n) {
            self.worklist.push(n);
        } else {
            assert(self@.queued =~= old(self)@.queued);
        }
    }

    /// Takes the node that was added last from those to look at.
    pub fn pop(&mut self) -> (r: Option<u32>)
        ensures
            match r {
                Some(n) => old(self)@.worklist.len() > 0 && n == old(self)@.worklist.last()
                    && final(self)@ == (SolverV {
                    worklist: old(self)@.worklist.drop_last(),
                    queued: old(self)@.queued.remove(n),
                    ..old(self)@
                }),
                None => old(self)@.worklist.len() == 0 && final(self)@ == old(self)@,
            },
    {
        match self.worklist.pop() {
            Some(n) => {
                fx_set_remove(&mut self.queued, n);
                Some(n)
            },
            None => None,
        }
    }

    /// Marks a node as seen, and tells whether it was new.
    pub fn see(&mut self, n: u32) -> (r: bool)
        ensures
            r == !old(self)@.seen_once.contains(n),
            final(self)@ == (SolverV {
                seen_once: old(self)@.seen_once.insert(n),
                ..old(self)@
            }),
    {
        fx_set_insert(&mut self.seen_once, n)
    }

    /// Notes that a copy has been wired, and tells whether it was new.
    pub fn wire_copy(&mut self, a: u32, b: u32) -> (r: bool)
        ensures
            r == !old(self)@.wired_copies.contains((a, b)),
            final(self)@ == (SolverV {
                wired_copies: old(self)@.wired_copies.insert((a, b)),
                ..old(self)@
            }),
    {
        fx_set_insert(&mut self.wired_copies, (a, b))
    }

    /// Notes that the effect of a model has been wired, and tells whether it
    /// was new.
    pub fn wire_model_edge(&mut self, a: u32, b: u32) -> (r: bool)
        ensures
            r == !old(self)@.wired_model_edges.contains((a, b)),
            final(self)@ == (SolverV {
                wired_model_edges: old(self)@.wired_model_edges.insert((a, b)),
                ..old(self)@
            }),
    {
        fx_set_insert(&mut self.wired_model_edges, (a, b))
    }

    /// Notes that a summary holds as much as it can.
    pub fn saturate(&mut self, l: u32)
        ensures
            final(self)@ == (SolverV {
                saturated: old(self)@.saturated.insert(l),
                ..old(self)@
            }),
    {
        fx_set_insert(&mut self.saturated, l);
    }

    /// Takes the news of a node.
    pub fn take_delta(&mut self, n: u32) -> (r: Vec<u32>)
        ensures
            r@ == list_of(old(self)@.delta, n),
            final(self)@ == old(self)@.taken(n),
    {
        let news = match fx_remove(&mut self.delta, n) {
            Some(v) => v,
            None => Vec::new(),
        };
        assert(news@ =~= list_of(old(self)@.delta, n));
        assert(self@.delta =~= old(self)@.delta.remove(n));
        let ghost start = self@;
        let mut i: usize = 0;
        while i < news.len()
            invariant
                i <= news@.len(),
                self@ == start.forgotten(n, news@, i as int),
            decreases news@.len() - i,
        {
            fx_set_remove(&mut self.delta_pending, (n, news[i]));
            i = i + 1;
        }
        news
    }

    /// Notes news at a node.
    fn record_delta(&mut self, n: u32, locs: &Vec<u32>)
        ensures
            final(self)@ == old(self)@.recorded(n, locs@, locs@.len() as int),
    {
        let mut i: usize = 0;
        while i < locs.len()
            invariant
                i <= locs@.len(),
                self@ == old(self)@.recorded(n, locs@, i as int),
            decreases locs@.len() - i,
        {
            let ghost before = self@;
            if fx_set_insert(&mut self.delta_pending, (n, locs[i])) {
                let mut list = match fx_remove(&mut self.delta, n) {
                    Some(v) => v,
                    None => Vec::new(),
                };
                assert(list@ =~= list_of(before.delta, n));
                list.push(locs[i]);
                fx_insert(&mut self.delta, n, list);
                assert(self@.delta =~= with_listed(before.delta, n, locs@[i as int]));
            } else {
                assert(self@.delta_pending =~= before.delta_pending);
            }
            i = i + 1;
        }
    }

    /// Locations reach a node.
    pub fn spread(&mut self, n: u32, locs: &Vec<u32>)
        ensures
            final(self)@ == old(self)@.spread(n, locs@),
    {
        let ghost start = self@;
        let mut news: Vec<u32> = Vec::new();
        let mut i: usize = 0;
        assert(news@ =~= Seq::empty());
        while i < locs.len()
            invariant
                self@ == start,
                i <= locs@.len(),
                news@ == fresh(start.pts_of(n), locs@, i as int),
            decreases locs@.len() - i,
        {
            let known = match fx_get(&self.pts, n) {
                Some(s) => index_set_contains(s, locs[i]),
                None => false,
            };
            if !known {
                news.push(locs[i]);
            }
            i = i + 1;
        }
        if news.len() == 0 {
            return ;
        }
        add_members(&mut self.pts, n, &news);
        let ghost mid = self@;
        let mut j: usize = 0;
        while j < news.len()
            invariant
                j <= news@.len(),
                self@ == mid.held(n, news@, j as int),
            decreases news@.len() - j,
        {
            let ghost before = self@;
            let x = one(n);
            add_members(&mut self.loc_nodes, news[j], &x);
            proof {
                with_members_one(list_of(before.loc_nodes, news@[j as int]), n);
            }
            j = j + 1;
        }
        self.record_delta(n, &news);
        self.push(n);
    }

    /// A location reaches a node.
    pub fn add_pts(&mut self, n: u32, loc: u32)
        ensures
            final(self)@ == old(self)@.spread(n, seq![loc]),
    {
        let x = one(loc);
        self.spread(n, &x);
    }

    /// What a place holds and a node has not seen reaches the node.
    pub fn merge_memory_into_if_grown(&mut self, n: u32, mem: u32)
        ensures
            final(self)@ == old(self)@.merged(n, mem),
    {
        let ghost start = self@;
        let seen = match fx_get(&self.merge_sizes, (n, mem)) {
            Some(k) => *k,
            None => 0,
        };
        let len = match fx_get(&self.memory, mem) {
            Some(s) => index_set_len(s),
            None => 0,
        };
        if len <= seen {
            return ;
        }
        let mut out: Vec<u32> = Vec::new();
        let mut i: usize = seen;
        assert(out@ =~= Seq::empty());
        while i < len
            invariant
                self@ == start,
                seen <= i <= len == start.memory_of(mem).len(),
                out@ == start.let_out(mem, seen as int, i as int),
            decreases len - i,
        {
            if let Some(s) = fx_get(&self.memory, mem) {
                let l = index_set_at(s, i);
                if self.lets_out(mem, l) {
                    out.push(l);
                }
            }
            i = i + 1;
        }
        self.spread(n, &out);
        fx_insert(&mut self.merge_sizes, (n, mem), len);
    }

    /// How much a place holds.
    pub fn memory_len(&self, l: u32) -> (r: usize)
        ensures
            r == self@.memory_of(l).len(),
    {
        match fx_get(&self.memory, l) {
            Some(s) => index_set_len(s),
            None => 0,
        }
    }

    /// Values are written to a place. Tells whether the place has changed.
    pub fn write(&mut self, l: u32, values: &Vec<u32>) -> (r: bool)
        ensures
            final(self)@ == (SolverV {
                memory: old(self)@.memory.insert(
                    l,
                    with_members(old(self)@.memory_of(l), values@),
                ),
                ..old(self)@
            }),
            r == (with_members(old(self)@.memory_of(l), values@).len() > old(self)@.memory_of(
                l,
            ).len()),
    {
        add_members(&mut self.memory, l, values)
    }

    /// Places have changed: the nodes that may hold them, as far as they are
    /// loaded from, must look at them again.
    pub fn touch_loc_holders(&mut self, locs: &Vec<u32>, load_src: &FxHashMap<u32, Vec<usize>>)
        ensures
            final(self)@ == old(self)@.touched_all(
                locs@,
                lists(load_src@),
                locs@.len() as int,
            ),
    {
        let mut i: usize = 0;
        while i < locs.len()
            invariant
                i <= locs@.len(),
                self@ == old(self)@.touched_all(locs@, lists(load_src@), i as int),
            decreases locs@.len() - i,
        {
            let ghost before = self@;
            let nodes = members_of(&self.loc_nodes, locs[i]);
            let x = one(locs[i]);
            let mut j: usize = 0;
            while j < nodes.len()
                invariant
                    i < locs@.len(),
                    j <= nodes@.len(),
                    x@ == seq![locs@[i as int]],
                    self@ == before.touched(
                        locs@[i as int],
                        nodes@,
                        lists(load_src@),
                        j as int,
                    ),
                decreases nodes@.len() - j,
            {
                if fx_get(load_src, nodes[j]).is_some() {
                    self.record_delta(nodes[j], &x);
                    self.push(nodes[j]);
                }
                j = j + 1;
            }
            i = i + 1;
        }
    }
}

} // verus!
