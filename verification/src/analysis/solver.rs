//! Solving the graph: what nodes may hold, and which functions calls reach.

use crate::analysis::constraints::{
    ArgFlowEdge, CallGraphEdge, ConstraintKind, ConstraintV, LocKind, ResolutionKind,
};
use crate::analysis::ending::{step_ends, to_come};
use crate::analysis::models::{builtin_models, model_of, Effect, FnModelSet, ModelV};
use crate::analysis::pag::{
    arg_at, find_arg, goes_through_field, is_lasting, lasting, list_of, lists, through_field,
    with_listed, IndicesV, Pag, PagNodeKind, PagV,
};
use crate::analysis::state::{with_members, SlotGuard, SolverState, SolverV};
use crate::collections::{fx_insert, fx_map, fx_remove, fx_set, fx_set_contains, fx_set_insert};
use crate::ir::ids::{CallSiteId, FieldId, FnId, LocId, PagNodeId, TypeId, VarId};
use crate::ir::program::{Program, ProgramV};
use crate::ir::symbol::{CallSite, FnV, SiteV, VarV};
use crate::ir::types::{desc_view, params_view_index, DescV, TypeDesc};
use crate::text::{str_eq, take_push};
use rustc_hash::{FxHashMap, FxHashSet};
use crate::analysis::constraints;
use vstd::prelude::*;

verus! {

/// The number of the call site of calls that have none of their own.
pub const SYNTHETIC_CALL_SITE: u32 = 0xffff_ffff;

/// How many locations a summary holds at most.
pub const SUMMARY_MEM_CAP: usize = 1024;

/// Where solving stands.
#[verifier::ext_equal]
pub struct RunV {
    pub pag: PagV,
    pub st: SolverV,
    pub edges: Seq<CallGraphEdge>,
    /// The functions that each indirect call is known to reach.
    pub resolved: Map<u32, Seq<FnId>>,
    /// The arguments that have been wired to parameters.
    pub wired: Set<(u32, u32, u32)>,
    /// The arguments that a call ends the life of.
    pub ends: Seq<(CallSiteId, u32)>,
}

impl ProgramV {
    /// Whether what a variable holds can bear on which functions are called.
    pub open spec fn may_hold_pointee(self, v: VarId) -> bool {
        match self.symbols.variable(v) {
            Some(x) => match self.types.desc(x.type_id) {
                Some(DescV::FnPtr { ret, params }) => true,
                Some(DescV::Ptr(inner)) => *inner is FnPtr || *inner is Unknown || *inner is Struct
                    || *inner is Union,
                _ => x.is_pointer,
            },
            None => false,
        }
    }

    /// The functions that a call site reaches without any pointer.
    pub open spec fn direct_callees(self, cs: SiteV) -> Seq<FnId> {
        match cs.callee_fn_id {
            Some(f) => seq![f],
            None => if cs.is_direct {
                match self.symbols.resolve_in_scope(cs.callee_name, Some(cs.span.file)) {
                    Some(f) => seq![f],
                    None => Seq::empty(),
                }
            } else if plain_call(cs) {
                self.symbols.candidates(cs.callee_name, Some(cs.span.file))
            } else {
                Seq::empty()
            },
        }
    }

    /// The call site at its identifier.
    pub open spec fn site(self, id: CallSiteId) -> Option<SiteV> {
        if id.0 < self.symbols.call_sites.len() && self.symbols.call_sites[id.0 as int].id == id {
            Some(self.symbols.call_sites[id.0 as int])
        } else {
            None
        }
    }

    /// Those of the first `n` functions that have a body.
    pub open spec fn defined_among(self, fns: Seq<FnId>, n: int) -> Seq<FnId>
        decreases n,
    {
        if n <= 0 {
            Seq::empty()
        } else {
            let before = self.defined_among(fns, n - 1);
            match self.symbols.function(fns[n - 1]) {
                Some(f) => if f.is_defined {
                    before.push(fns[n - 1])
                } else {
                    before
                },
                None => before,
            }
        }
    }

    /// The functions that a call reaches through a pointer to `f`: `f`, and,
    /// where `f` has no body, those of its name that have one.
    pub open spec fn reached(self, f: FnId) -> Seq<FnId> {
        match self.symbols.function(f) {
            Some(func) => if func.is_defined {
                seq![f]
            } else {
                let all = self.symbols.candidates(func.name, Some(func.file));
                self.defined_among(all, all.len() as int).push(f)
            },
            None => Seq::empty(),
        }
    }

    /// What the guard of a place of a type is.
    pub open spec fn guard_of(self, loc: constraints::LocV) -> Option<SlotGuard> {
        match self.types.desc(loc.type_id) {
            Some(DescV::FnPtr { ret, params }) => if params.len() > 0 {
                Some(SlotGuard::FnParams(params.len() as usize))
            } else {
                None
            },
            Some(DescV::Struct { name, fields }) => Some(SlotGuard::NotFnPtr),
            Some(DescV::Union { name, fields }) => Some(SlotGuard::NotFnPtr),
            Some(DescV::Ptr(inner)) => Some(SlotGuard::NotFnPtr),
            Some(DescV::Array { elem, size }) => Some(SlotGuard::NotFnPtr),
            _ => None,
        }
    }
}

/// A call that names what it calls: it goes through no variable and no field.
pub open spec fn plain_call(cs: SiteV) -> bool {
    cs.callee_var is None && !through_field(cs.callee_name)
}

/// The first function that is passed at a position, from `i` on.
pub open spec fn fn_arg_at(args: Seq<(u32, FnId)>, at: u32, i: int) -> Option<FnId>
    decreases args.len() - i,
{
    if i < 0 || i >= args.len() {
        None
    } else if args[i].0 == at {
        Some(args[i].1)
    } else {
        fn_arg_at(args, at, i + 1)
    }
}

/// Locations as numbers.
pub open spec fn loc_numbers(s: Seq<LocId>) -> Seq<u32> {
    Seq::new(s.len(), |i: int| s[i].0)
}

/// Nodes as numbers.
pub open spec fn node_numbers(s: Seq<PagNodeId>) -> Seq<u32> {
    Seq::new(s.len(), |i: int| s[i].0)
}

impl PagV {
    pub open spec fn constraint(self, i: usize) -> Option<ConstraintV> {
        if i < self.constraints.len() {
            Some(self.constraints[i as int])
        } else {
            None
        }
    }

    /// The location whose address a constraint takes.
    pub open spec fn source_loc(self, i: usize) -> Option<LocId> {
        match self.constraint(i) {
            Some(c) => match self.kind_of(c.src) {
                Some(PagNodeKind::Loc(l)) => Some(l),
                _ => None,
            },
            None => None,
        }
    }

    /// Where the copy that a model makes begins or ends: at an argument, or,
    /// where the argument is the address of a variable, at the variable.
    pub open spec fn copy_side(self, n: PagNodeId, idxs: Seq<usize>, i: int) -> PagNodeId
        decreases idxs.len() - i,
    {
        if i < 0 || i >= idxs.len() {
            n
        } else {
            match self.source_loc(idxs[i]) {
                Some(l) => match self.location(l) {
                    Some(loc) => match loc.var {
                        Some(v) => match self.node_of_var(v) {
                            Some(m) => m,
                            None => self.copy_side(n, idxs, i + 1),
                        },
                        None => self.copy_side(n, idxs, i + 1),
                    },
                    None => self.copy_side(n, idxs, i + 1),
                },
                None => self.copy_side(n, idxs, i + 1),
            }
        }
    }

    /// The node that the copy of an argument begins or ends at.
    pub open spec fn side_of(self, n: PagNodeId) -> PagNodeId {
        self.copy_side(n, list_of(self.indices.addr_of_dst, n.0), 0)
    }

    /// The node of the variable that is passed at a position.
    pub open spec fn arg_node(self, cs: SiteV, at: u32) -> Option<PagNodeId> {
        match arg_at(cs.var_args, at, 0) {
            Some(v) => self.node_of_var(v),
            None => None,
        }
    }

    /// The place of the variable that a node is.
    pub open spec fn own_place(self, n: PagNodeId) -> Option<LocId> {
        match self.kind_of(n) {
            Some(PagNodeKind::Var(v)) => self.location_of_var(v),
            _ => None,
        }
    }

    /// Those of the first `n` values that may be written to a place.
    pub open spec fn writable(self, st: SolverV, l: u32, values: Seq<u32>, n: int) -> Seq<u32>
        decreases n,
    {
        if n <= 0 {
            Seq::empty()
        } else if self.function_at(LocId(values[n - 1])) is None || st.allows(l, values[n - 1]) {
            self.writable(st, l, values, n - 1).push(values[n - 1])
        } else {
            self.writable(st, l, values, n - 1)
        }
    }

    /// Those of the first `n` values that are no functions.
    pub open spec fn non_functions(self, values: Seq<u32>, n: int) -> Seq<u32>
        decreases n,
    {
        if n <= 0 {
            Seq::empty()
        } else if self.function_at(LocId(values[n - 1])) is None {
            self.non_functions(values, n - 1).push(values[n - 1])
        } else {
            self.non_functions(values, n - 1)
        }
    }
}

/// With one more value, if there is one.
pub open spec fn with_value(values: Seq<u32>, extra: Option<LocId>) -> Seq<u32> {
    match extra {
        Some(l) => values.push(l.0),
        None => values,
    }
}

impl SolverV {
    /// Whether the type of a place lets functions in at all.
    pub open spec fn lets_functions_in(self, slot: u32) -> bool {
        !(self.slot_guard.contains_key(slot) && self.slot_guard[slot] == SlotGuard::NotFnPtr)
    }

    /// `values` are written to a place.
    pub open spec fn written(self, l: u32, values: Seq<u32>) -> SolverV {
        SolverV {
            memory: self.memory.insert(l, with_members(self.memory_of(l), values)),
            ..self
        }
    }

    /// Whether writing `values` to a place changes it.
    pub open spec fn grows(self, l: u32, values: Seq<u32>) -> bool {
        with_members(self.memory_of(l), values).len() > self.memory_of(l).len()
    }

    /// `values`, and the place of the variable that is written, go to a
    /// place, and to the summary of the field that the place is. The second
    /// part of the result says whether anything has changed.
    pub open spec fn stored_at(
        self,
        pag: PagV,
        l: u32,
        values: Seq<u32>,
        own: Option<LocId>,
    ) -> (SolverV, bool) {
        let vs = with_value(pag.writable(self, l, values, values.len() as int), own);
        let s = self.written(l, vs);
        let changed = self.grows(l, vs);
        match pag.summary_of(LocId(l)) {
            Some(sum) => if s.memory_of(sum.0).len() < SUMMARY_MEM_CAP {
                let ws = with_value(
                    if s.lets_functions_in(sum.0) {
                        values
                    } else {
                        pag.non_functions(values, values.len() as int)
                    },
                    own,
                );
                (s.written(sum.0, ws), changed || s.grows(sum.0, ws))
            } else {
                (SolverV { saturated: s.saturated.insert(sum.0), ..s }, changed)
            },
            None => (s, changed),
        }
    }

    /// `values` go to the first `n` of the targets that are no functions. The
    /// second part of the result lists the places that have changed.
    pub open spec fn stored(
        self,
        pag: PagV,
        targets: Seq<u32>,
        values: Seq<u32>,
        own: Option<LocId>,
        n: int,
    ) -> (SolverV, Seq<u32>)
        decreases n,
    {
        if n <= 0 {
            (self, Seq::empty())
        } else {
            let (s, again) = self.stored(pag, targets, values, own, n - 1);
            let l = targets[n - 1];
            if pag.function_at(LocId(l)) is Some {
                (s, again)
            } else {
                let (t, changed) = s.stored_at(pag, l, values, own);
                if changed {
                    (t, with_value(again.push(l), pag.summary_of(LocId(l))))
                } else {
                    (t, again)
                }
            }
        }
    }

    /// What is known already reaches the destinations of those copies and
    /// addresses among the constraints from `from` up to `n`.
    pub open spec fn caught_up(self, pag: PagV, from: int, n: int) -> SolverV
        decreases n - from,
    {
        if n <= from {
            self
        } else {
            let s = self.caught_up(pag, from, n - 1);
            let c = pag.constraints[n - 1];
            match c.kind {
                ConstraintKind::Copy => s.spread(c.dst.0, s.pts_of(c.src.0)),
                ConstraintKind::AddrOf => match pag.kind_of(c.src) {
                    Some(PagNodeKind::Loc(l)) => s.spread(c.dst.0, seq![l.0]),
                    _ => s,
                },
                _ => s,
            }
        }
    }

    /// A store takes effect on its targets: those given, or all that the
    /// pointer may hold.
    pub open spec fn store(self, pag: PagV, i: usize, given: Option<Seq<u32>>) -> SolverV {
        match pag.constraint(i) {
            Some(c) => {
                let values = self.pts_of(c.src.0);
                let own = pag.own_place(c.src);
                if values.len() == 0 && own is None {
                    self
                } else {
                    let targets = match given {
                        Some(ts) => ts,
                        None => self.pts_of(c.dst.0),
                    };
                    let (s, again) = self.stored(pag, targets, values, own, targets.len() as int);
                    s.touched_all(again, pag.indices.load_src, again.len() as int)
                }
            },
            None => self,
        }
    }
}

impl RunV {
    pub open spec fn with_st(self, st: SolverV) -> RunV {
        RunV { st, ..self }
    }

    /// With a copy that also concerns what is found later.
    pub open spec fn with_copy(self, src: PagNodeId, dst: PagNodeId) -> RunV {
        let i = self.pag.constraints.len() as usize;
        let p = self.pag.with_constraint(ConstraintKind::Copy, dst, src);
        RunV {
            pag: PagV {
                indices: IndicesV {
                    copy_src: with_listed(p.indices.copy_src, src.0, i),
                    ..p.indices
                },
                ..p
            },
            st: if self.st.pts_of(src.0).len() > 0 {
                self.st.pushed(src.0)
            } else {
                self.st
            },
            ..self
        }
    }

    /// With the argument at `k` wired to a parameter.
    pub open spec fn with_param(
        self,
        p: ProgramV,
        cs: SiteV,
        callee: FnId,
        formal: VarId,
        k: u32,
    ) -> RunV {
        match arg_at(cs.var_args, k, 0) {
            Some(actual) => match (self.pag.node_of_var(formal), self.pag.node_of_var(actual)) {
                (Some(f), Some(a)) => {
                    let r = if p.may_hold_pointee(actual) && p.may_hold_pointee(formal) {
                        let s = self.with_st(
                            SolverV {
                                wired_copies: self.st.wired_copies.insert((a.0, f.0)),
                                ..self.st
                            },
                        );
                        if self.st.wired_copies.contains((a.0, f.0)) {
                            s
                        } else {
                            s.with_copy(a, f)
                        }
                    } else {
                        self
                    };
                    RunV {
                        st: r.st.spread(f.0, r.st.pts_of(a.0)),
                        wired: r.wired.insert((cs.id.0, k, callee.0)),
                        ..r
                    }
                },
                _ => self,
            },
            None => match fn_arg_at(cs.fn_args, k, 0) {
                Some(g) => match self.pag.node_of_var(formal) {
                    Some(f) => RunV {
                        st: match self.pag.fn_location(g) {
                            Some(l) => self.st.spread(f.0, seq![l.0]),
                            None => self.st,
                        },
                        wired: self.wired.insert((cs.id.0, k, callee.0)),
                        ..self
                    },
                    None => self,
                },
                None => self,
            },
        }
    }

    /// With the arguments of a call wired to the first `n` parameters.
    pub open spec fn with_params(
        self,
        p: ProgramV,
        cs: SiteV,
        callee: FnId,
        params: Seq<VarId>,
        n: int,
    ) -> RunV
        decreases n,
    {
        if n <= 0 {
            self
        } else {
            self.with_params(p, cs, callee, params, n - 1).with_param(
                p,
                cs,
                callee,
                params[n - 1],
                (n - 1) as u32,
            )
        }
    }

    /// With the arguments of a call wired to the parameters of a function.
    pub open spec fn wired_to(self, p: ProgramV, cs: SiteV, callee: FnId) -> RunV {
        match p.symbols.function(callee) {
            Some(f) => self.with_params(p, cs, callee, f.params, f.params.len() as int),
            None => self,
        }
    }

    /// What one argument holds, now or later, is copied to another.
    pub open spec fn with_model_copy(self, cs: SiteV, dst: u32, src: u32) -> RunV {
        match (self.pag.arg_node(cs, dst), self.pag.arg_node(cs, src)) {
            (Some(dn), Some(sn)) => {
                let d = self.pag.side_of(dn);
                let s = self.pag.side_of(sn);
                if self.st.wired_model_edges.contains((s.0, d.0)) {
                    self
                } else {
                    let r = self.with_st(
                        SolverV {
                            wired_model_edges: self.st.wired_model_edges.insert((s.0, d.0)),
                            ..self.st
                        },
                    ).with_copy(s, d);
                    r.with_st(r.st.spread(d.0, r.st.pts_of(s.0)))
                }
            },
            _ => self,
        }
    }

    /// One argument is written to where another points.
    pub open spec fn with_model_store(self, cs: SiteV, ptr: u32, value: u32) -> RunV {
        match (self.pag.arg_node(cs, ptr), self.pag.arg_node(cs, value)) {
            (Some(t), Some(v)) => if self.st.wired_model_edges.contains((v.0, t.0)) {
                self
            } else {
                let i = self.pag.constraints.len() as usize;
                let q = self.pag.with_constraint(ConstraintKind::Store, t, v);
                let r = RunV {
                    pag: PagV {
                        indices: IndicesV {
                            store_dst: with_listed(q.indices.store_dst, t.0, i),
                            store_src: with_listed(q.indices.store_src, v.0, i),
                            ..q.indices
                        },
                        ..q
                    },
                    st: (SolverV {
                        wired_model_edges: self.st.wired_model_edges.insert((v.0, t.0)),
                        ..self.st
                    }).pushed(t.0).pushed(v.0),
                    ..self
                };
                r.with_st(r.st.store(r.pag, i, None))
            },
            _ => self,
        }
    }

    /// With one effect of a call.
    pub open spec fn with_effect(self, cs: SiteV, effect: Effect) -> RunV {
        match effect {
            Effect::Alias { dst, src } => if cs.addr_of_member_args.contains(dst)
                || cs.addr_of_member_args.contains(src) {
                self
            } else {
                self.with_model_copy(cs, dst, src)
            },
            Effect::MemCopy { dst, src } => self.with_model_copy(cs, dst, src),
            Effect::ContentStore { ptr, value } => self.with_model_store(cs, ptr, value),
            Effect::Clears { param } => if self.pag.arg_node(cs, param) is Some
                && !self.ends.contains((cs.id, param)) {
                RunV { ends: self.ends.push((cs.id, param)), ..self }
            } else {
                self
            },
            _ => self,
        }
    }

    /// With the first `n` effects of a call.
    pub open spec fn with_effects(self, cs: SiteV, effects: Seq<Effect>, n: int) -> RunV
        decreases n,
    {
        if n <= 0 {
            self
        } else {
            self.with_effects(cs, effects, n - 1).with_effect(cs, effects[n - 1])
        }
    }

    /// With the effects that a call of a function has by its model.
    pub open spec fn modeled(self, models: Seq<ModelV>, cs: SiteV, name: Seq<char>) -> RunV {
        match model_of(models, name, 0) {
            Some(m) => self.with_effects(cs, m.effects, m.effects.len() as int),
            None => self,
        }
    }

    /// With the first `n` functions that a call site reaches without any
    /// pointer.
    pub open spec fn with_direct(
        self,
        p: ProgramV,
        models: Seq<ModelV>,
        cs: SiteV,
        callees: Seq<FnId>,
        n: int,
    ) -> RunV
        decreases n,
    {
        if n <= 0 {
            self
        } else {
            let r = self.with_direct(p, models, cs, callees, n - 1);
            let callee = callees[n - 1];
            match p.symbols.function(callee) {
                Some(f) => (RunV {
                    edges: r.edges.push(
                        CallGraphEdge {
                            call_site: cs.id,
                            caller: cs.caller,
                            callee,
                            resolution: if f.is_defined {
                                ResolutionKind::Direct
                            } else {
                                ResolutionKind::External
                            },
                        },
                    ),
                    ..r
                }).wired_to(p, cs, callee).modeled(models, cs, f.name),
                None => r,
            }
        }
    }

    /// With what the first `n` call sites reach without any pointer.
    pub open spec fn with_direct_calls(self, p: ProgramV, models: Seq<ModelV>, n: int) -> RunV
        decreases n,
    {
        if n <= 0 {
            self
        } else {
            let cs = p.symbols.call_sites[n - 1];
            let callees = p.direct_callees(cs);
            self.with_direct_calls(p, models, n - 1).with_direct(
                p,
                models,
                cs,
                callees,
                callees.len() as int,
            )
        }
    }
}

/// What one look at a node needs to know.
pub struct LookV {
    pub p: ProgramV,
    pub models: Seq<ModelV>,
    /// The node.
    pub node: u32,
    /// What it has gained.
    pub delta: Seq<u32>,
}

impl RunV {
    /// The addresses that the first `n` of the constraints take reach a node.
    pub open spec fn with_addresses(self, node: u32, idxs: Seq<usize>, n: int) -> RunV
        decreases n,
    {
        if n <= 0 {
            self
        } else {
            let r = self.with_addresses(node, idxs, n - 1);
            match r.pag.source_loc(idxs[n - 1]) {
                Some(l) => r.with_st(r.st.spread(node, seq![l.0])),
                None => r,
            }
        }
    }

    /// The summary of a field of the type of a variable reaches a node.
    pub open spec fn with_var_summary(
        self,
        p: ProgramV,
        src: PagNodeId,
        field: FieldId,
        dst: u32,
    ) -> RunV {
        match self.pag.kind_of(src) {
            Some(PagNodeKind::Var(base)) => {
                let (q, s) = self.pag.ensured_var_summary(p, base, field);
                match s {
                    Some(l) => RunV {
                        pag: q,
                        st: self.st.spread(dst, seq![l.0]).merged(dst, l.0),
                        ..self
                    },
                    None => RunV { pag: q, ..self },
                }
            },
            _ => self,
        }
    }

    /// The first `n` field accesses, at a base that is not known to hold
    /// anything.
    pub open spec fn with_first_geps(self, p: ProgramV, idxs: Seq<usize>, n: int) -> RunV
        decreases n,
    {
        if n <= 0 {
            self
        } else {
            let r = self.with_first_geps(p, idxs, n - 1);
            match r.pag.constraint(idxs[n - 1]) {
                Some(c) => match c.field {
                    Some(field) => r.with_var_summary(p, c.src, field, c.dst.0),
                    None => r,
                },
                None => r,
            }
        }
    }

    /// The first look at a node that has gained nothing.
    pub open spec fn first_look(self, p: ProgramV, node: u32) -> RunV {
        if self.st.seen_once.contains(node) {
            self
        } else {
            let r = self.with_st(
                SolverV { seen_once: self.st.seen_once.insert(node), ..self.st },
            );
            let addrs = list_of(r.pag.indices.addr_of_dst, node);
            let s = r.with_addresses(node, addrs, addrs.len() as int);
            let geps = list_of(s.pag.indices.gep_src, node);
            s.with_first_geps(p, geps, geps.len() as int)
        }
    }

    /// The first `n` copies.
    pub open spec fn with_copies(self, delta: Seq<u32>, idxs: Seq<usize>, n: int) -> RunV
        decreases n,
    {
        if n <= 0 {
            self
        } else {
            let r = self.with_copies(delta, idxs, n - 1);
            match r.pag.constraint(idxs[n - 1]) {
                Some(c) => r.with_st(r.st.spread(c.dst.0, delta)),
                None => r,
            }
        }
    }

    /// A node loads from the first `k` of what another has gained: a function
    /// is its own value, any other place hands out what it holds.
    pub open spec fn with_loaded(self, dst: u32, delta: Seq<u32>, k: int) -> RunV
        decreases k,
    {
        if k <= 0 {
            self
        } else {
            let r = self.with_loaded(dst, delta, k - 1);
            if r.pag.function_at(LocId(delta[k - 1])) is Some {
                r.with_st(r.st.spread(dst, seq![delta[k - 1]]))
            } else {
                r.with_st(r.st.merged(dst, delta[k - 1]))
            }
        }
    }

    /// The first `n` loads.
    pub open spec fn with_loads(self, delta: Seq<u32>, idxs: Seq<usize>, n: int) -> RunV
        decreases n,
    {
        if n <= 0 {
            self
        } else {
            let r = self.with_loads(delta, idxs, n - 1);
            match r.pag.constraint(idxs[n - 1]) {
                Some(c) => r.with_loaded(c.dst.0, delta, delta.len() as int),
                None => r,
            }
        }
    }

    /// The first `n` stores.
    pub open spec fn with_stores(self, given: Option<Seq<u32>>, idxs: Seq<usize>, n: int) -> RunV
        decreases n,
    {
        if n <= 0 {
            self
        } else {
            let r = self.with_stores(given, idxs, n - 1);
            r.with_st(r.st.store(r.pag, idxs[n - 1], given))
        }
    }

    /// Whether an object can have the field that is accessed: it has it under
    /// the same name, or its type is not known.
    pub open spec fn field_fits(
        self,
        p: ProgramV,
        l: u32,
        field: FieldId,
        name: Option<Seq<char>>,
    ) -> bool {
        match name {
            Some(expected) => match self.pag.object_type(p, LocId(l)) {
                Some(ty) => match p.types.field(ty, field) {
                    Some(fl) => fl.name == expected,
                    None => false,
                },
                None => true,
            },
            None => true,
        }
    }

    /// The functions among the initializers of an array reach a node.
    pub open spec fn with_array_members(self, array: VarId, dst: u32) -> RunV {
        let fns = loc_numbers(list_of(self.pag.array_fn_members, array.0));
        self.with_st(self.st.spread_each(dst, fns, fns.len() as int))
    }

    /// A field is accessed where the base holds a function.
    pub open spec fn with_function_field(
        self,
        p: ProgramV,
        src: PagNodeId,
        dst: u32,
        field: FieldId,
        l: u32,
        f: FnId,
    ) -> RunV {
        let array = match self.pag.kind_of(src) {
            Some(PagNodeKind::Var(v)) => if self.pag.array_fn_members.contains_key(v.0) {
                Some(v)
            } else {
                None
            },
            _ => None,
        };
        match array {
            Some(v) => self.with_array_members(v, dst),
            None => match p.symbols.function(f) {
                Some(func) => if func.params.len() > 0 && self.pag.slot_arity(p, LocId(l), field)
                    == Some(func.params.len()) {
                    self.with_st(self.st.spread(dst, seq![l]))
                } else {
                    self
                },
                None => self,
            },
        }
    }

    /// A field of an object is accessed. The second part of the result says
    /// whether the object has a place for it.
    pub open spec fn with_object_field(
        self,
        p: ProgramV,
        dst: u32,
        field: FieldId,
        l: u32,
    ) -> (RunV, bool) {
        let (q, fl) = self.pag.ensured_field(p, LocId(l), field);
        match fl {
            Some(place) => {
                let st = match q.summary_of(place) {
                    Some(sum) => self.st.spread(dst, seq![place.0, sum.0]).merged(
                        dst,
                        place.0,
                    ).merged(dst, sum.0),
                    None => self.st.spread(dst, seq![place.0]).merged(dst, place.0),
                };
                let r = RunV { pag: q, st, ..self };
                match q.location(LocId(l)) {
                    Some(loc) => match loc.var {
                        Some(owner) => (r.with_array_members(owner, dst), true),
                        None => (r, true),
                    },
                    None => (r, true),
                }
            },
            None => (RunV { pag: q, ..self }, false),
        }
    }

    /// A field of the first `k` of what a base has gained is accessed. The
    /// second part of the result says whether any has a place for it.
    pub open spec fn with_gep_locs(
        self,
        p: ProgramV,
        c: ConstraintV,
        field: FieldId,
        delta: Seq<u32>,
        k: int,
    ) -> (RunV, bool)
        decreases k,
    {
        if k <= 0 {
            (self, false)
        } else {
            let (r, some) = self.with_gep_locs(p, c, field, delta, k - 1);
            let l = delta[k - 1];
            if !r.field_fits(p, l, field, c.field_name) {
                (r, some)
            } else {
                match r.pag.function_at(LocId(l)) {
                    Some(f) => (r.with_function_field(p, c.src, c.dst.0, field, l, f), some),
                    None => {
                        let (s, more) = r.with_object_field(p, c.dst.0, field, l);
                        (s, some || more)
                    },
                }
            }
        }
    }

    /// A field access.
    pub open spec fn with_gep(self, look: LookV, i: usize) -> RunV {
        match self.pag.constraint(i) {
            Some(c) => match c.field {
                Some(field) => {
                    let (r, some) = self.with_gep_locs(
                        look.p,
                        c,
                        field,
                        look.delta,
                        look.delta.len() as int,
                    );
                    if r.st.pts_of(look.node).len() == 0 || !some {
                        r.with_var_summary(look.p, c.src, field, c.dst.0)
                    } else {
                        r
                    }
                },
                None => self,
            },
            None => self,
        }
    }

    /// The first `n` field accesses.
    pub open spec fn with_geps(self, look: LookV, idxs: Seq<usize>, n: int) -> RunV
        decreases n,
    {
        if n <= 0 {
            self
        } else {
            self.with_geps(look, idxs, n - 1).with_gep(look, idxs[n - 1])
        }
    }

    /// Those of the first `n` functions that have a name reach a node.
    pub open spec fn with_named(self, fns: Seq<FnV>, name: Seq<char>, dst: u32, n: int) -> RunV
        decreases n,
    {
        if n <= 0 {
            self
        } else {
            let r = self.with_named(fns, name, dst, n - 1);
            if fns[n - 1].name == name {
                match r.pag.fn_location(fns[n - 1].id) {
                    Some(l) => r.with_st(r.st.spread(dst, seq![l.0])),
                    None => r,
                }
            } else {
                r
            }
        }
    }

    /// The functions that are named by the strings among the first `k` of
    /// what a node has gained reach another.
    pub open spec fn with_looked_up(self, p: ProgramV, dst: u32, delta: Seq<u32>, k: int) -> RunV
        decreases k,
    {
        if k <= 0 {
            self
        } else {
            let r = self.with_looked_up(p, dst, delta, k - 1);
            match r.pag.location(LocId(delta[k - 1])) {
                Some(loc) => if loc.kind == LocKind::StringLit {
                    r.with_named(
                        p.symbols.functions,
                        loc.desc,
                        dst,
                        p.symbols.functions.len() as int,
                    )
                } else {
                    r
                },
                None => r,
            }
        }
    }

    /// The first `n` lookups by name.
    pub open spec fn with_lookups(self, look: LookV, idxs: Seq<usize>, n: int) -> RunV
        decreases n,
    {
        if n <= 0 {
            self
        } else {
            let r = self.with_lookups(look, idxs, n - 1);
            match r.pag.constraint(idxs[n - 1]) {
                Some(c) => r.with_looked_up(
                    look.p,
                    c.dst.0,
                    look.delta,
                    look.delta.len() as int,
                ),
                None => r,
            }
        }
    }

    /// The functions that a call reaches by the first `k` of what its target
    /// has gained.
    pub open spec fn reached(self, p: ProgramV, delta: Seq<u32>, k: int) -> Seq<FnId>
        decreases k,
    {
        if k <= 0 {
            Seq::empty()
        } else {
            match self.pag.function_at(LocId(delta[k - 1])) {
                Some(f) => self.reached(p, delta, k - 1) + p.reached(f),
                None => self.reached(p, delta, k - 1),
            }
        }
    }

    /// What a function returns reaches what takes the result of a call
    /// through a variable.
    pub open spec fn with_returns(
        self,
        p: ProgramV,
        models: Seq<ModelV>,
        cs: SiteV,
        callee: FnId,
    ) -> RunV {
        match cs.callee_var {
            Some(v) => if self.pag.indirect_return_dst.contains_key(v.0) {
                let from = self.pag.constraints.len() as int;
                let q = self.pag.with_returns_of(
                    p,
                    models,
                    PagNodeId(self.pag.indirect_return_dst[v.0]),
                    callee,
                );
                let again = node_numbers(q.touched(from, q.constraints.len() as int));
                let r = RunV {
                    pag: q.with_indices(from, q.constraints.len() as int),
                    st: self.st.pushed_all(again, again.len() as int),
                    ..self
                };
                r.with_st(r.st.caught_up(r.pag, from, r.pag.constraints.len() as int))
            } else {
                self
            },
            None => self,
        }
    }

    /// A call is found to reach a function.
    pub open spec fn with_callee(
        self,
        p: ProgramV,
        models: Seq<ModelV>,
        cs: SiteV,
        callee: FnId,
    ) -> RunV {
        let known = list_of(self.resolved, cs.id.0);
        if known.contains(callee) {
            self
        } else {
            let r = (RunV {
                resolved: self.resolved.insert(cs.id.0, known.push(callee)),
                edges: self.edges.push(
                    CallGraphEdge {
                        call_site: cs.id,
                        caller: cs.caller,
                        callee,
                        resolution: ResolutionKind::Indirect,
                    },
                ),
                ..self
            }).wired_to(p, cs, callee).with_returns(p, models, cs, callee);
            match p.symbols.function(callee) {
                Some(f) => r.modeled(models, cs, f.name),
                None => r,
            }
        }
    }

    /// A call is found to reach the first `n` functions.
    pub open spec fn with_callees(
        self,
        p: ProgramV,
        models: Seq<ModelV>,
        cs: SiteV,
        callees: Seq<FnId>,
        n: int,
    ) -> RunV
        decreases n,
    {
        if n <= 0 {
            self
        } else {
            self.with_callees(p, models, cs, callees, n - 1).with_callee(
                p,
                models,
                cs,
                callees[n - 1],
            )
        }
    }

    /// The first `n` of the calls whose target a node is.
    pub open spec fn with_indirect(self, look: LookV, sites: Seq<CallSiteId>, n: int) -> RunV
        decreases n,
    {
        if n <= 0 {
            self
        } else {
            let r = self.with_indirect(look, sites, n - 1);
            match look.p.site(sites[n - 1]) {
                Some(cs) => {
                    let callees = r.reached(look.p, look.delta, look.delta.len() as int);
                    r.with_callees(look.p, look.models, cs, callees, callees.len() as int)
                },
                None => r,
            }
        }
    }

    /// What a node has gained travels on.
    pub open spec fn travelled(self, look: LookV) -> RunV {
        let node = look.node;
        let copies = list_of(self.pag.indices.copy_src, node);
        let r1 = self.with_copies(look.delta, copies, copies.len() as int);
        let addrs = list_of(r1.pag.indices.addr_of_dst, node);
        let r2 = r1.with_addresses(node, addrs, addrs.len() as int);
        let loads = list_of(r2.pag.indices.load_src, node);
        let r3 = r2.with_loads(look.delta, loads, loads.len() as int);
        let into = list_of(r3.pag.indices.store_dst, node);
        let r4 = r3.with_stores(Some(look.delta), into, into.len() as int);
        let from = list_of(r4.pag.indices.store_src, node);
        let r5 = r4.with_stores(None, from, from.len() as int);
        let geps = list_of(r5.pag.indices.gep_src, node);
        let r6 = r5.with_geps(look, geps, geps.len() as int);
        let lookups = list_of(r6.pag.indices.dlsym_src, node);
        let r7 = r6.with_lookups(look, lookups, lookups.len() as int);
        let calls = list_of(r7.pag.indices.indirect_by_target, node);
        r7.with_indirect(look, calls, calls.len() as int)
    }

    /// One look at the node that was put among those to look at last.
    pub open spec fn step(self, p: ProgramV, models: Seq<ModelV>) -> RunV {
        let node = self.st.worklist.last();
        let st = SolverV {
            worklist: self.st.worklist.drop_last(),
            queued: self.st.queued.remove(node),
            ..self.st
        };
        let delta = list_of(st.delta, node);
        let r = self.with_st(st.taken(node));
        if delta.len() == 0 {
            r.first_look(p, node)
        } else {
            r.travelled(LookV { p, models, node, delta })
        }
    }

    /// Nodes are looked at until none is left, or `budget` looks have been
    /// taken.
    pub open spec fn run(self, p: ProgramV, models: Seq<ModelV>, budget: nat) -> RunV
        decreases budget,
    {
        if self.st.worklist.len() == 0 {
            self
        } else if budget == 0 {
            // The node that exceeds the budget has been taken, and is not
            // looked at.
            let node = self.st.worklist.last();
            self.with_st(
                SolverV {
                    worklist: self.st.worklist.drop_last(),
                    queued: self.st.queued.remove(node),
                    ..self.st
                },
            )
        } else {
            self.step(p, models).run(p, models, (budget - 1) as nat)
        }
    }

    /// Whether `budget` looks leave nothing to look at.
    pub open spec fn settles(self, p: ProgramV, models: Seq<ModelV>, budget: nat) -> bool
        decreases budget,
    {
        if self.st.worklist.len() == 0 {
            true
        } else if budget == 0 {
            false
        } else {
            self.step(p, models).settles(p, models, (budget - 1) as nat)
        }
    }
}

impl SolverV {
    /// With the locations of functions.
    pub open spec fn with_fn_locs(self, pag: PagV) -> SolverV {
        SolverV { fn_locs: Set::new(|l: u32| pag.function_at(LocId(l)) is Some), ..self }
    }

    /// With the guards of the first `n` places.
    pub open spec fn with_guards(self, p: ProgramV, pag: PagV, n: int) -> SolverV
        decreases n,
    {
        if n <= 0 {
            self
        } else {
            let s = self.with_guards(p, pag, n - 1);
            match p.guard_of(pag.locations[n - 1]) {
                Some(g) => SolverV {
                    slot_guard: s.slot_guard.insert(pag.locations[n - 1].id.0, g),
                    ..s
                },
                None => s,
            }
        }
    }

    /// With the numbers of parameters of the first `n` functions.
    pub open spec fn with_arities(self, p: ProgramV, pag: PagV, n: int) -> SolverV
        decreases n,
    {
        if n <= 0 {
            self
        } else {
            let s = self.with_arities(p, pag, n - 1);
            let (f, l) = pag.fn_locations[n - 1];
            match p.symbols.function(FnId(f)) {
                Some(func) => if func.params.len() > 0 {
                    SolverV { fn_arity: s.fn_arity.insert(l, func.params.len() as usize), ..s }
                } else {
                    s
                },
                None => s,
            }
        }
    }

    /// With the nodes of the first `n` constraints to look at.
    pub open spec fn with_constrained(self, pag: PagV, n: int) -> SolverV
        decreases n,
    {
        if n <= 0 {
            self
        } else {
            self.with_constrained(pag, n - 1).pushed(pag.constraints[n - 1].dst.0).pushed(
                pag.constraints[n - 1].src.0,
            )
        }
    }

    /// With the addresses that the first `n` constraints take.
    pub open spec fn with_seeds(self, pag: PagV, n: int) -> SolverV
        decreases n,
    {
        if n <= 0 {
            self
        } else {
            let s = self.with_seeds(pag, n - 1);
            let c = pag.constraints[n - 1];
            if c.kind == ConstraintKind::AddrOf {
                match pag.kind_of(c.src) {
                    Some(PagNodeKind::Loc(l)) => s.spread(c.dst.0, seq![l.0]),
                    _ => s,
                }
            } else {
                s
            }
        }
    }

    /// With the nodes seen at which the first `n` constraints take addresses.
    pub open spec fn with_seen(self, pag: PagV, n: int) -> SolverV
        decreases n,
    {
        if n <= 0 {
            self
        } else {
            let s = self.with_seen(pag, n - 1);
            let c = pag.constraints[n - 1];
            if c.kind == ConstraintKind::AddrOf {
                SolverV { seen_once: s.seen_once.insert(c.dst.0), ..s }
            } else {
                s
            }
        }
    }

    /// With the places of those of the first `n` variables that last.
    pub open spec fn with_places(self, vars: Seq<VarV>, pag: PagV, n: int) -> SolverV
        decreases n,
    {
        if n <= 0 {
            self
        } else {
            let s = self.with_places(vars, pag, n - 1);
            let v = vars[n - 1];
            if lasting(v.storage) {
                match (pag.location_of_var(v.id), pag.node_of_var(v.id)) {
                    (Some(l), Some(node)) => s.spread(node.0, seq![l.0]),
                    _ => s,
                }
            } else {
                s
            }
        }
    }
}

impl PagV {
    /// Where solving begins.
    pub open spec fn start(self, p: ProgramV, models: Seq<ModelV>) -> RunV {
        let n = self.constraints.len() as int;
        let st = SolverV::empty().with_fn_locs(self).with_guards(
            p,
            self,
            self.locations.len() as int,
        ).with_arities(
            p,
            self,
            self.fn_locations.len() as int,
        ).with_constrained(self, n).with_seeds(self, n).with_seen(self, n).with_places(
            p.symbols.variables,
            self,
            p.symbols.variables.len() as int,
        );
        (RunV {
            pag: self,
            st,
            edges: Seq::empty(),
            resolved: Map::empty(),
            wired: Set::empty(),
            ends: Seq::empty(),
        }).with_direct_calls(p, models, p.symbols.call_sites.len() as int)
    }
}

/// `edges`, and the edges of those of the first `n` bridges that end at a
/// function with a body.
pub open spec fn with_bridges(
    edges: Seq<CallGraphEdge>,
    p: ProgramV,
    pag: PagV,
    n: int,
) -> Seq<CallGraphEdge>
    decreases n,
{
    if n <= 0 {
        edges
    } else {
        let before = with_bridges(edges, p, pag, n - 1);
        let b = pag.ipc_bridges[n - 1];
        match p.symbols.function(b.stub_handler) {
            Some(f) => if f.is_defined {
                before.push(
                    CallGraphEdge {
                        call_site: CallSiteId(SYNTHETIC_CALL_SITE),
                        caller: b.proxy_method,
                        callee: b.stub_handler,
                        resolution: ResolutionKind::IpcBridge,
                    },
                )
            } else {
                before
            },
            None => before,
        }
    }
}

/// Whether a call names what it calls: it goes through no variable and no
/// field.
pub fn direct_by_name(cs: &CallSite) -> (r: bool)
    ensures
        r == plain_call(cs@),
{
    cs.callee_var.is_none() && !goes_through_field(cs.callee_name.as_str())
}

/// Whether what a variable holds can bear on which functions are called.
pub fn var_may_hold_pointee(program: &Program, v: VarId) -> (r: bool)
    ensures
        r == program@.may_hold_pointee(v),
{
    proof {
        reveal_with_fuel(desc_view, 3);
    }
    match program.symbols.variable_by_id(v) {
        Some(x) => match program.types.get(x.type_id) {
            Some(t) => match &t.desc {
                TypeDesc::FnPtr { ret, params } => true,
                TypeDesc::Ptr(inner) => match &**inner {
                    TypeDesc::FnPtr { ret, params } => true,
                    TypeDesc::Unknown => true,
                    TypeDesc::Struct { name, fields } => true,
                    TypeDesc::Union { name, fields } => true,
                    _ => false,
                },
                _ => x.is_pointer,
            },
            None => x.is_pointer,
        },
        None => false,
    }
}

/// The functions that a call site reaches without any pointer.
fn direct_callees(program: &Program, cs: &CallSite) -> (r: Vec<FnId>)
    ensures
        r@ == program@.direct_callees(cs@),
{
    let mut out: Vec<FnId> = Vec::new();
    if let Some(f) = cs.callee_fn_id {
        out.push(f);
        assert(out@ =~= seq![f]);
    } else if cs.is_direct {
        if let Some(f) = program.symbols.resolve_function_in_scope(
            cs.callee_name.as_str(),
            Some(cs.span.file),
        ) {
            out.push(f);
            assert(out@ =~= seq![f]);
        } else {
            assert(out@ =~= Seq::empty());
        }
    } else if direct_by_name(cs) {
        return program.symbols.resolve_function_candidates(
            cs.callee_name.as_str(),
            Some(cs.span.file),
        );
    } else {
        assert(out@ =~= Seq::empty());
    }
    out
}

fn site(program: &Program, id: CallSiteId) -> (r: Option<&CallSite>)
    ensures
        match r {
            Some(c) => program@.site(id) == Some(c@),
            None => program@.site(id) is None,
        },
{
    let k = id.0 as usize;
    if k < program.symbols.call_site_count() {
        let c = program.symbols.call_site_at(k);
        if c.id == id {
            return Some(c);
        }
    }
    None
}

fn find_fn_arg(args: &Vec<(u32, FnId)>, at: u32) -> (r: Option<FnId>)
    ensures
        r == fn_arg_at(args@, at, 0),
{
    let mut i: usize = 0;
    while i < args.len()
        invariant
            i <= args@.len(),
            fn_arg_at(args@, at, i as int) == fn_arg_at(args@, at, 0),
        decreases args@.len() - i,
    {
        if args[i].0 == at {
            return Some(args[i].1);
        }
        i = i + 1;
    }
    None
}

fn has_number(list: &Vec<u32>, x: u32) -> (r: bool)
    ensures
        r == list@.contains(x),
{
    let mut i: usize = 0;
    while i < list.len()
        invariant
            i <= list@.len(),
            forall|j: int| 0 <= j < i ==> list@[j] != x,
        decreases list@.len() - i,
    {
        if list[i] == x {
            assert(list@[i as int] == x);
            return true;
        }
        i = i + 1;
    }
    false
}

fn guard_of(program: &Program, ty: TypeId) -> (r: Option<SlotGuard>)
    ensures
        forall|l: constraints::LocV|
            l.type_id == ty ==> r == #[trigger] program@.guard_of(l),
{
    match program.types.get(ty) {
        Some(t) => match &t.desc {
            TypeDesc::FnPtr { ret, params } => {
                proof {
                    params_view_index(params@);
                }
                if params.len() > 0 {
                    Some(SlotGuard::FnParams(params.len()))
                } else {
                    None
                }
            },
            TypeDesc::Struct { name, fields } => Some(SlotGuard::NotFnPtr),
            TypeDesc::Union { name, fields } => Some(SlotGuard::NotFnPtr),
            TypeDesc::Ptr(inner) => Some(SlotGuard::NotFnPtr),
            TypeDesc::Array { elem, size } => Some(SlotGuard::NotFnPtr),
            _ => None,
        },
        None => None,
    }
}

impl Pag {
    fn source_loc(&self, i: usize) -> (r: Option<LocId>)
        ensures
            r == self@.source_loc(i),
    {
        if i < self.constraint_count() {
            let src = self.constraint(i).src;
            match self.kind_of(src) {
                Some(PagNodeKind::Loc(l)) => Some(l),
                _ => None,
            }
        } else {
            None
        }
    }

    /// Where the copy that a model makes of an argument begins or ends.
    fn model_copy_side(&self, n: PagNodeId) -> (r: PagNodeId)
        ensures
            r == self@.side_of(n),
    {
        let idxs = self.addresses_at(n.0);
        let mut i: usize = 0;
        while i < idxs.len()
            invariant
                i <= idxs@.len(),
                idxs@ == list_of(self@.indices.addr_of_dst, n.0),
                self@.copy_side(n, idxs@, i as int) == self@.copy_side(n, idxs@, 0),
            decreases idxs@.len() - i,
        {
            if let Some(l) = self.source_loc(idxs[i]) {
                if let Some(loc) = self.location(l) {
                    if let Some(v) = loc.var {
                        if let Some(m) = self.node_of_var(v) {
                            return m;
                        }
                    }
                }
            }
            i = i + 1;
        }
        n
    }

    fn arg_node(&self, cs: &CallSite, at: u32) -> (r: Option<PagNodeId>)
        ensures
            r == self@.arg_node(cs@, at),
    {
        match find_arg(&cs.var_args, at) {
            Some(v) => self.node_of_var(v),
            None => None,
        }
    }

    fn own_place(&self, n: PagNodeId) -> (r: Option<LocId>)
        ensures
            r == self@.own_place(n),
    {
        match self.kind_of(n) {
            Some(PagNodeKind::Var(v)) => self.location_of_var(v),
            _ => None,
        }
    }

    fn writable(&self, st: &SolverState, l: u32, values: &Vec<u32>) -> (r: Vec<u32>)
        ensures
            r@ == self@.writable(st@, l, values@, values@.len() as int),
    {
        let mut out: Vec<u32> = Vec::new();
        let mut i: usize = 0;
        assert(out@ =~= Seq::empty());
        while i < values.len()
            invariant
                i <= values@.len(),
                out@ == self@.writable(st@, l, values@, i as int),
            decreases values@.len() - i,
        {
            if self.function_at(LocId(values[i])).is_none() || st.arity_allows(l, values[i]) {
                out.push(values[i]);
            }
            i = i + 1;
        }
        out
    }

    fn non_functions(&self, values: &Vec<u32>) -> (r: Vec<u32>)
        ensures
            r@ == self@.non_functions(values@, values@.len() as int),
    {
        let mut out: Vec<u32> = Vec::new();
        let mut i: usize = 0;
        assert(out@ =~= Seq::empty());
        while i < values.len()
            invariant
                i <= values@.len(),
                out@ == self@.non_functions(values@, i as int),
            decreases values@.len() - i,
        {
            if self.function_at(LocId(values[i])).is_none() {
                out.push(values[i]);
            }
            i = i + 1;
        }
        out
    }
}

fn copy_numbers(values: &Vec<u32>) -> (r: Vec<u32>)
    ensures
        r@ == values@,
{
    let mut out: Vec<u32> = Vec::new();
    let mut i: usize = 0;
    while i < values.len()
        invariant
            i <= values@.len(),
            out@ == values@.take(i as int),
        decreases values@.len() - i,
    {
        out.push(values[i]);
        proof {
            take_push(values@, i as int);
        }
        i = i + 1;
    }
    assert(values@.take(i as int) =~= values@);
    out
}

fn add_value(values: &mut Vec<u32>, extra: Option<LocId>)
    ensures
        final(values)@ == with_value(old(values)@, extra),
{
    if let Some(l) = extra {
        values.push(l.0);
    }
}

impl SolverState {
    fn store_at(&mut self, pag: &Pag, l: u32, values: &Vec<u32>, own: Option<LocId>) -> (r: bool)
        ensures
            (final(self)@, r) == old(self)@.stored_at(pag@, l, values@, own),
    {
        let mut vs = pag.writable(self, l, values);
        add_value(&mut vs, own);
        let changed = self.write(l, &vs);
        match pag.summary_for_field_loc(LocId(l)) {
            Some(sum) => {
                if self.memory_len(sum.0) < SUMMARY_MEM_CAP {
                    let mut ws = if self.lets_functions_in(sum.0) {
                        copy_numbers(values)
                    } else {
                        pag.non_functions(values)
                    };
                    add_value(&mut ws, own);
                    let more = self.write(sum.0, &ws);
                    changed || more
                } else {
                    self.saturate(sum.0);
                    changed
                }
            },
            None => changed,
        }
    }

    /// A store takes effect on its targets: those given, or all that the
    /// pointer may hold.
    fn apply_store_to_targets(&mut self, pag: &Pag, i: usize, given: Option<&Vec<u32>>)
        ensures
            final(self)@ == old(self)@.store(
                pag@,
                i,
                match given {
                    Some(v) => Some(v@),
                    None => None,
                },
            ),
    {
        if i >= pag.constraint_count() {
            return ;
        }
        let src = pag.constraint(i).src;
        let dst = pag.constraint(i).dst;
        let values = self.pts_of(src.0);
        let own = pag.own_place(src);
        if values.len() == 0 && own.is_none() {
            return ;
        }
        let targets = match given {
            Some(ts) => copy_numbers(ts),
            None => self.pts_of(dst.0),
        };
        let ghost start = self@;
        let mut again: Vec<u32> = Vec::new();
        let mut k: usize = 0;
        assert(again@ =~= Seq::empty());
        while k < targets.len()
            invariant
                k <= targets@.len(),
                (self@, again@) == start.stored(pag@, targets@, values@, own, k as int),
            decreases targets@.len() - k,
        {
            let l = targets[k];
            if pag.function_at(LocId(l)).is_none() {
                if self.store_at(pag, l, &values, own) {
                    again.push(l);
                    add_value(&mut again, pag.summary_for_field_loc(LocId(l)));
                }
            }
            k = k + 1;
        }
        self.touch_loc_holders(&again, pag.loads());
    }
}

/// Where solving stands.
struct Run {
    pag: Pag,
    st: SolverState,
    edges: Vec<CallGraphEdge>,
    resolved: FxHashMap<u32, Vec<FnId>>,
    wired: FxHashSet<(u32, u32, u32)>,
    ends: Vec<(CallSiteId, u32)>,
}

impl View for Run {
    type V = RunV;

    closed spec fn view(&self) -> RunV {
        RunV {
            pag: self.pag@,
            st: self.st@,
            edges: self.edges@,
            resolved: lists(self.resolved@),
            wired: self.wired@,
            ends: self.ends@,
        }
    }
}

impl Run {
    fn ensure_param_copy(&mut self, src: PagNodeId, dst: PagNodeId)
        ensures
            final(self)@ == old(self)@.with_copy(src, dst),
    {
        self.pag.add_indexed_copy(dst, src);
        if !self.st.holds_nothing(src.0) {
            self.st.push(src.0);
        }
    }

    fn wire_param(
        &mut self,
        program: &Program,
        cs: &CallSite,
        callee: FnId,
        formal: VarId,
        k: u32,
    )
        ensures
            final(self)@ == old(self)@.with_param(program@, cs@, callee, formal, k),
    {
        if let Some(actual) = find_arg(&cs.var_args, k) {
            if let Some(f) = self.pag.node_of_var(formal) {
                if let Some(a) = self.pag.node_of_var(actual) {
                    if var_may_hold_pointee(program, actual) && var_may_hold_pointee(
                        program,
                        formal,
                    ) {
                        if self.st.wire_copy(a.0, f.0) {
                            self.ensure_param_copy(a, f);
                        }
                    }
                    let held = self.st.pts_of(a.0);
                    self.st.spread(f.0, &held);
                    fx_set_insert(&mut self.wired, (cs.id.0, k, callee.0));
                }
            }
        } else if let Some(g) = find_fn_arg(&cs.fn_args, k) {
            if let Some(f) = self.pag.node_of_var(formal) {
                if let Some(l) = self.pag.fn_location(g) {
                    self.st.add_pts(f.0, l.0);
                }
                fx_set_insert(&mut self.wired, (cs.id.0, k, callee.0));
            }
        }
    }

    fn wire_params(&mut self, program: &Program, cs: &CallSite, callee: FnId)
        ensures
            final(self)@ == old(self)@.wired_to(program@, cs@, callee),
    {
        if let Some(func) = program.symbols.function_by_id(callee) {
            let mut i: usize = 0;
            while i < func.params.len()
                invariant
                    i <= func.params@.len(),
                    self@ == old(self)@.with_params(
                        program@,
                        cs@,
                        callee,
                        func.params@,
                        i as int,
                    ),
                decreases func.params@.len() - i,
            {
                self.wire_param(program, cs, callee, func.params[i], i as u32);
                i = i + 1;
            }
        }
    }

    fn model_copy(&mut self, cs: &CallSite, dst: u32, src: u32)
        ensures
            final(self)@ == old(self)@.with_model_copy(cs@, dst, src),
    {
        if let Some(dn) = self.pag.arg_node(cs, dst) {
            if let Some(sn) = self.pag.arg_node(cs, src) {
                let d = self.pag.model_copy_side(dn);
                let s = self.pag.model_copy_side(sn);
                let ghost before = self@;
                if self.st.wire_model_edge(s.0, d.0) {
                    self.ensure_param_copy(s, d);
                    let held = self.st.pts_of(s.0);
                    self.st.spread(d.0, &held);
                } else {
                    assert(self@.st.wired_model_edges =~= before.st.wired_model_edges);
                }
            }
        }
    }

    fn model_store(&mut self, cs: &CallSite, ptr: u32, value: u32)
        ensures
            final(self)@ == old(self)@.with_model_store(cs@, ptr, value),
    {
        if let Some(t) = self.pag.arg_node(cs, ptr) {
            if let Some(v) = self.pag.arg_node(cs, value) {
                let ghost before = self@;
                if self.st.wire_model_edge(v.0, t.0) {
                    let i = self.pag.constraint_count();
                    self.pag.add_indexed_store(t, v);
                    self.st.push(t.0);
                    self.st.push(v.0);
                    self.st.apply_store_to_targets(&self.pag, i, None);
                } else {
                    assert(self@.st.wired_model_edges =~= before.st.wired_model_edges);
                }
            }
        }
    }

    fn ended(&self, id: CallSiteId, param: u32) -> (r: bool)
        ensures
            r == self@.ends.contains((id, param)),
    {
        let mut i: usize = 0;
        while i < self.ends.len()
            invariant
                i <= self.ends@.len(),
                forall|j: int| 0 <= j < i ==> self.ends@[j] != (id, param),
            decreases self.ends@.len() - i,
        {
            if self.ends[i].0 == id && self.ends[i].1 == param {
                assert(self.ends@[i as int] == (id, param));
                return true;
            }
            i = i + 1;
        }
        false
    }

    fn apply_effect(&mut self, cs: &CallSite, effect: Effect)
        ensures
            final(self)@ == old(self)@.with_effect(cs@, effect),
    {
        match effect {
            Effect::Alias { dst, src } => {
                if !has_number(&cs.addr_of_member_args, dst) && !has_number(
                    &cs.addr_of_member_args,
                    src,
                ) {
                    self.model_copy(cs, dst, src);
                }
            },
            Effect::MemCopy { dst, src } => {
                self.model_copy(cs, dst, src);
            },
            Effect::ContentStore { ptr, value } => {
                self.model_store(cs, ptr, value);
            },
            Effect::Clears { param } => {
                if self.pag.arg_node(cs, param).is_some() && !self.ended(cs.id, param) {
                    self.ends.push((cs.id, param));
                }
            },
            _ => {},
        }
    }

    fn apply_fn_model(&mut self, cs: &CallSite, name: &str, models: &FnModelSet)
        ensures
            final(self)@ == old(self)@.modeled(models@, cs@, name@),
    {
        if let Some(m) = models.get(name) {
            let mut i: usize = 0;
            while i < m.effects.len()
                invariant
                    i <= m.effects@.len(),
                    self@ == old(self)@.with_effects(cs@, m.effects@, i as int),
                decreases m.effects@.len() - i,
            {
                self.apply_effect(cs, m.effects[i]);
                i = i + 1;
            }
        }
    }

    fn direct_calls_of(&mut self, program: &Program, models: &FnModelSet, cs: &CallSite)
        ensures
            final(self)@ == old(self)@.with_direct(
                program@,
                models@,
                cs@,
                program@.direct_callees(cs@),
                program@.direct_callees(cs@).len() as int,
            ),
    {
        let callees = direct_callees(program, cs);
        let mut i: usize = 0;
        while i < callees.len()
            invariant
                i <= callees@.len(),
                self@ == old(self)@.with_direct(
                    program@,
                    models@,
                    cs@,
                    callees@,
                    i as int,
                ),
            decreases callees@.len() - i,
        {
            let callee = callees[i];
            if let Some(f) = program.symbols.function_by_id(callee) {
                self.edges.push(
                    CallGraphEdge {
                        call_site: cs.id,
                        caller: cs.caller,
                        callee,
                        resolution: if f.is_defined {
                            ResolutionKind::Direct
                        } else {
                            ResolutionKind::External
                        },
                    },
                );
                self.wire_params(program, cs, callee);
                self.apply_fn_model(cs, f.name.as_str(), models);
            }
            i = i + 1;
        }
    }

    fn direct_calls(&mut self, program: &Program, models: &FnModelSet)
        ensures
            final(self)@ == old(self)@.with_direct_calls(
                program@,
                models@,
                program@.symbols.call_sites.len() as int,
            ),
    {
        let count = program.symbols.call_site_count();
        let mut i: usize = 0;
        while i < count
            invariant
                i <= count == program@.symbols.call_sites.len(),
                self@ == old(self)@.with_direct_calls(program@, models@, i as int),
            decreases count - i,
        {
            self.direct_calls_of(program, models, program.symbols.call_site_at(i));
            i = i + 1;
        }
    }

    fn addresses(&mut self, node: u32)
        ensures
            final(self)@ == old(self)@.with_addresses(
                node,
                list_of(old(self)@.pag.indices.addr_of_dst, node),
                list_of(old(self)@.pag.indices.addr_of_dst, node).len() as int,
            ),
    {
        let idxs = self.pag.addresses_at(node);
        let mut i: usize = 0;
        while i < idxs.len()
            invariant
                i <= idxs@.len(),
                self@ == old(self)@.with_addresses(node, idxs@, i as int),
            decreases idxs@.len() - i,
        {
            if let Some(l) = self.pag.source_loc(idxs[i]) {
                self.st.add_pts(node, l.0);
            }
            i = i + 1;
        }
    }

    fn var_summary(&mut self, program: &Program, src: PagNodeId, field: FieldId, dst: u32)
        ensures
            final(self)@ == old(self)@.with_var_summary(program@, src, field, dst),
    {
        if let Some(PagNodeKind::Var(base)) = self.pag.kind_of(src) {
            if let Some(l) = self.pag.ensure_field_summary_for_var(program, base, field) {
                self.st.add_pts(dst, l.0);
                self.st.merge_memory_into_if_grown(dst, l.0);
            }
        }
    }

    fn first_look(&mut self, program: &Program, node: u32)
        ensures
            final(self)@ == old(self)@.first_look(program@, node),
    {
        let ghost before = self@;
        if self.st.see(node) {
            self.addresses(node);
            let idxs = self.pag.geps_from(node);
            let ghost start = self@;
            let mut i: usize = 0;
            while i < idxs.len()
                invariant
                    i <= idxs@.len(),
                    self@ == start.with_first_geps(program@, idxs@, i as int),
                decreases idxs@.len() - i,
            {
                if idxs[i] < self.pag.constraint_count() {
                    let src = self.pag.constraint(idxs[i]).src;
                    let dst = self.pag.constraint(idxs[i]).dst;
                    if let Some(field) = self.pag.constraint(idxs[i]).field {
                        self.var_summary(program, src, field, dst.0);
                    }
                }
                i = i + 1;
            }
        } else {
            assert(self@.st.seen_once =~= before.st.seen_once);
        }
    }

    fn copies(&mut self, node: u32, delta: &Vec<u32>)
        ensures
            final(self)@ == old(self)@.with_copies(
                delta@,
                list_of(old(self)@.pag.indices.copy_src, node),
                list_of(old(self)@.pag.indices.copy_src, node).len() as int,
            ),
    {
        let idxs = self.pag.copies_from(node);
        let mut i: usize = 0;
        while i < idxs.len()
            invariant
                i <= idxs@.len(),
                self@ == old(self)@.with_copies(delta@, idxs@, i as int),
            decreases idxs@.len() - i,
        {
            if idxs[i] < self.pag.constraint_count() {
                let dst = self.pag.constraint(idxs[i]).dst;
                self.st.spread(dst.0, delta);
            }
            i = i + 1;
        }
    }

    fn load(&mut self, dst: u32, delta: &Vec<u32>)
        ensures
            final(self)@ == old(self)@.with_loaded(dst, delta@, delta@.len() as int),
    {
        let mut k: usize = 0;
        while k < delta.len()
            invariant
                k <= delta@.len(),
                self@ == old(self)@.with_loaded(dst, delta@, k as int),
            decreases delta@.len() - k,
        {
            if self.pag.function_at(LocId(delta[k])).is_some() {
                self.st.add_pts(dst, delta[k]);
            } else {
                self.st.merge_memory_into_if_grown(dst, delta[k]);
            }
            k = k + 1;
        }
    }

    fn loads(&mut self, node: u32, delta: &Vec<u32>)
        ensures
            final(self)@ == old(self)@.with_loads(
                delta@,
                list_of(old(self)@.pag.indices.load_src, node),
                list_of(old(self)@.pag.indices.load_src, node).len() as int,
            ),
    {
        let idxs = self.pag.loads_from(node);
        let mut i: usize = 0;
        while i < idxs.len()
            invariant
                i <= idxs@.len(),
                self@ == old(self)@.with_loads(delta@, idxs@, i as int),
            decreases idxs@.len() - i,
        {
            if idxs[i] < self.pag.constraint_count() {
                let dst = self.pag.constraint(idxs[i]).dst;
                self.load(dst.0, delta);
            }
            i = i + 1;
        }
    }

    fn stores(&mut self, idxs: &Vec<usize>, given: Option<&Vec<u32>>)
        ensures
            final(self)@ == old(self)@.with_stores(
                match given {
                    Some(v) => Some(v@),
                    None => None,
                },
                idxs@,
                idxs@.len() as int,
            ),
    {
        let mut i: usize = 0;
        while i < idxs.len()
            invariant
                i <= idxs@.len(),
                self@ == old(self)@.with_stores(
                    match given {
                        Some(v) => Some(v@),
                        None => None,
                    },
                    idxs@,
                    i as int,
                ),
            decreases idxs@.len() - i,
        {
            self.st.apply_store_to_targets(&self.pag, idxs[i], given);
            i = i + 1;
        }
    }

    fn field_fits(&self, program: &Program, l: u32, field: FieldId, name: &Option<String>) -> (r:
        bool)
        ensures
            r == self@.field_fits(
                program@,
                l,
                field,
                match *name {
                    Some(n) => Some(n@),
                    None => None,
                },
            ),
    {
        match name {
            Some(expected) => match self.pag.object_type(program, LocId(l)) {
                Some(ty) => match program.types.field(ty, field) {
                    Some(fl) => str_eq(fl.name.as_str(), expected.as_str()),
                    None => false,
                },
                None => true,
            },
            None => true,
        }
    }

    fn array_members(&mut self, array: VarId, dst: u32)
        ensures
            final(self)@ == old(self)@.with_array_members(array, dst),
    {
        let fns = self.pag.array_members(array);
        let ghost numbers = loc_numbers(fns@);
        let ghost start = self@;
        let mut i: usize = 0;
        while i < fns.len()
            invariant
                i <= fns@.len(),
                numbers == loc_numbers(fns@),
                self@ == start.with_st(start.st.spread_each(dst, numbers, i as int)),
            decreases fns@.len() - i,
        {
            assert(numbers[i as int] == fns@[i as int].0);
            self.st.add_pts(dst, fns[i].0);
            i = i + 1;
        }
    }

    fn function_field(
        &mut self,
        program: &Program,
        src: PagNodeId,
        dst: u32,
        field: FieldId,
        l: u32,
        f: FnId,
    )
        ensures
            final(self)@ == old(self)@.with_function_field(program@, src, dst, field, l, f),
    {
        if let Some(PagNodeKind::Var(v)) = self.pag.kind_of(src) {
            if self.pag.has_array_members(v) {
                self.array_members(v, dst);
                return ;
            }
        }
        if let Some(func) = program.symbols.function_by_id(f) {
            let n = func.params.len();
            if n > 0 {
                if let Some(m) = self.pag.field_slot_arity(program, LocId(l), field) {
                    if m == n {
                        self.st.add_pts(dst, l);
                    }
                }
            }
        }
    }

    fn object_field(&mut self, program: &Program, dst: u32, field: FieldId, l: u32) -> (r: bool)
        ensures
            (final(self)@, r) == old(self)@.with_object_field(program@, dst, field, l),
    {
        match self.pag.ensure_field_loc(program, LocId(l), field) {
            Some(place) => {
                let mut targets: Vec<u32> = Vec::new();
                targets.push(place.0);
                match self.pag.summary_for_field_loc(place) {
                    Some(sum) => {
                        targets.push(sum.0);
                        assert(targets@ =~= seq![place.0, sum.0]);
                        self.st.spread(dst, &targets);
                        self.st.merge_memory_into_if_grown(dst, place.0);
                        self.st.merge_memory_into_if_grown(dst, sum.0);
                    },
                    None => {
                        assert(targets@ =~= seq![place.0]);
                        self.st.spread(dst, &targets);
                        self.st.merge_memory_into_if_grown(dst, place.0);
                    },
                }
                let owner = match self.pag.location(LocId(l)) {
                    Some(loc) => loc.var,
                    None => None,
                };
                if let Some(v) = owner {
                    self.array_members(v, dst);
                }
                true
            },
            None => false,
        }
    }

    fn gep(&mut self, program: &Program, node: u32, delta: &Vec<u32>, i: usize)
        ensures
            forall|look: LookV|
                look.p == program@ && look.node == node && look.delta == delta@ ==> final(self)@
                    == #[trigger] old(self)@.with_gep(look, i),
    {
        if i >= self.pag.constraint_count() {
            return ;
        }
        let ghost c = self@.pag.constraints[i as int];
        let src = self.pag.constraint(i).src;
        let dst = self.pag.constraint(i).dst;
        let field = match self.pag.constraint(i).field {
            Some(f) => f,
            None => {
                return ;
            },
        };
        let name = match &self.pag.constraint(i).field_name {
            Some(n) => Some(n.clone()),
            None => None,
        };
        let ghost start = self@;
        let mut some = false;
        let mut k: usize = 0;
        while k < delta.len()
            invariant
                k <= delta@.len(),
                c.src == src,
                c.dst == dst,
                c.field_name == (match name {
                    Some(n) => Some(n@),
                    None => None,
                }),
                (self@, some) == start.with_gep_locs(program@, c, field, delta@, k as int),
            decreases delta@.len() - k,
        {
            let l = delta[k];
            if self.field_fits(program, l, field, &name) {
                match self.pag.function_at(LocId(l)) {
                    Some(f) => {
                        self.function_field(program, src, dst.0, field, l, f);
                    },
                    None => {
                        if self.object_field(program, dst.0, field, l) {
                            some = true;
                        }
                    },
                }
            }
            k = k + 1;
        }
        if self.st.holds_nothing(node) || !some {
            self.var_summary(program, src, field, dst.0);
        }
    }

    fn named(&mut self, program: &Program, name: &str, dst: u32)
        ensures
            final(self)@ == old(self)@.with_named(
                program@.symbols.functions,
                name@,
                dst,
                program@.symbols.functions.len() as int,
            ),
    {
        let count = program.symbols.function_count();
        let mut i: usize = 0;
        while i < count
            invariant
                i <= count == program@.symbols.functions.len(),
                self@ == old(self)@.with_named(
                    program@.symbols.functions,
                    name@,
                    dst,
                    i as int,
                ),
            decreases count - i,
        {
            let f = program.symbols.function_at(i);
            if str_eq(f.name.as_str(), name) {
                if let Some(l) = self.pag.fn_location(f.id) {
                    self.st.add_pts(dst, l.0);
                }
            }
            i = i + 1;
        }
    }

    fn look_up(&mut self, program: &Program, dst: u32, delta: &Vec<u32>)
        ensures
            final(self)@ == old(self)@.with_looked_up(
                program@,
                dst,
                delta@,
                delta@.len() as int,
            ),
    {
        let mut k: usize = 0;
        while k < delta.len()
            invariant
                k <= delta@.len(),
                self@ == old(self)@.with_looked_up(program@, dst, delta@, k as int),
            decreases delta@.len() - k,
        {
            let name = match self.pag.location(LocId(delta[k])) {
                Some(loc) => if loc.kind == LocKind::StringLit {
                    Some(loc.desc.clone())
                } else {
                    None
                },
                None => None,
            };
            if let Some(n) = name {
                self.named(program, n.as_str(), dst);
            }
            k = k + 1;
        }
    }

    fn reached(&self, program: &Program, delta: &Vec<u32>) -> (r: Vec<FnId>)
        ensures
            r@ == self@.reached(program@, delta@, delta@.len() as int),
    {
        let mut out: Vec<FnId> = Vec::new();
        let mut k: usize = 0;
        assert(out@ =~= Seq::empty());
        while k < delta.len()
            invariant
                k <= delta@.len(),
                out@ == self@.reached(program@, delta@, k as int),
            decreases delta@.len() - k,
        {
            if let Some(f) = self.pag.function_at(LocId(delta[k])) {
                add_reached(program, f, &mut out);
            }
            k = k + 1;
        }
        out
    }

    fn bring_returns(&mut self, program: &Program, models: &FnModelSet, cs: &CallSite, callee: FnId)
        requires
            program.wf(),
        ensures
            final(self)@ == old(self)@.with_returns(program@, models@, cs@, callee),
    {
        if let Some(v) = cs.callee_var {
            if let Some(dst) = self.pag.return_dst(v) {
                let from = self.pag.constraint_count();
                self.pag.add_returns_of(program, dst, callee, models);
                let ghost q = self.pag@;
                if self.pag.constraint_count() >= from {
                    let again = self.pag.index_new_constraints(from);
                    let ghost numbers = node_numbers(again@);
                    let ghost start = self@;
                    let mut i: usize = 0;
                    while i < again.len()
                        invariant
                            i <= again@.len(),
                            numbers == node_numbers(again@),
                            self@ == start.with_st(start.st.pushed_all(numbers, i as int)),
                        decreases again@.len() - i,
                    {
                        assert(numbers[i as int] == again@[i as int].0);
                        self.st.push(again[i].0);
                        i = i + 1;
                    }
                }
                self.catch_up(from);
            }
        }
    }

    /// Lets what is known already reach the destinations of the constraints
    /// from a position on.
    fn catch_up(&mut self, from: usize)
        ensures
            final(self)@ == old(self)@.with_st(
                old(self)@.st.caught_up(
                    old(self)@.pag,
                    from as int,
                    old(self)@.pag.constraints.len() as int,
                ),
            ),
    {
        let ghost start = self@;
        let count = self.pag.constraint_count();
        let mut i: usize = from;
        while i < count
            invariant
                from <= i,
                count == start.pag.constraints.len(),
                from <= count ==> i <= count,
                from > count ==> i == from,
                self@ == start.with_st(start.st.caught_up(start.pag, from as int, i as int)),
            decreases count - i,
        {
            let c = self.pag.constraint(i);
            let (dst, src) = (c.dst, c.src);
            match c.kind {
                ConstraintKind::Copy => {
                    let held = self.st.pts_of(src.0);
                    self.st.spread(dst.0, &held);
                },
                ConstraintKind::AddrOf => {
                    if let Some(PagNodeKind::Loc(l)) = self.pag.kind_of(src) {
                        self.st.add_pts(dst.0, l.0);
                    }
                },
                _ => {},
            }
            i = i + 1;
        }
    }

    fn callee(&mut self, program: &Program, models: &FnModelSet, cs: &CallSite, callee: FnId)
        requires
            program.wf(),
        ensures
            final(self)@ == old(self)@.with_callee(program@, models@, cs@, callee),
    {
        let ghost before = self@;
        let mut known = match fx_remove(&mut self.resolved, cs.id.0) {
            Some(v) => v,
            None => Vec::new(),
        };
        assert(known@ =~= list_of(before.resolved, cs.id.0));
        let mut i: usize = 0;
        let mut found = false;
        while i < known.len()
            invariant
                i <= known@.len(),
                found ==> known@.contains(callee),
                !found ==> forall|j: int| 0 <= j < i ==> known@[j] != callee,
            decreases known@.len() - i,
        {
            if known[i] == callee {
                assert(known@[i as int] == callee);
                found = true;
            }
            i = i + 1;
        }
        if found {
            let ghost k = known@;
            fx_insert(&mut self.resolved, cs.id.0, known);
            assert(self@.resolved =~= before.resolved);
            return ;
        }
        known.push(callee);
        let ghost k = known@;
        fx_insert(&mut self.resolved, cs.id.0, known);
        assert(self@.resolved =~= before.resolved.insert(cs.id.0, k));
        self.edges.push(
            CallGraphEdge {
                call_site: cs.id,
                caller: cs.caller,
                callee,
                resolution: ResolutionKind::Indirect,
            },
        );
        self.wire_params(program, cs, callee);
        self.bring_returns(program, models, cs, callee);
        if let Some(f) = program.symbols.function_by_id(callee) {
            self.apply_fn_model(cs, f.name.as_str(), models);
        }
    }

    fn indirect(&mut self, program: &Program, models: &FnModelSet, node: u32, delta: &Vec<u32>)
        requires
            program.wf(),
        ensures
            forall|look: LookV|
                look.p == program@ && look.models == models@ && look.node == node && look.delta
                    == delta@ ==> final(self)@ == #[trigger] old(self)@.with_indirect(
                    look,
                    list_of(old(self)@.pag.indices.indirect_by_target, node),
                    list_of(old(self)@.pag.indices.indirect_by_target, node).len() as int,
                ),
    {
        let ghost look = LookV { p: program@, models: models@, node, delta: delta@ };
        let sites = self.pag.calls_at(node);
        let ghost start = self@;
        let mut i: usize = 0;
        while i < sites.len()
            invariant
                program.wf(),
                i <= sites@.len(),
                look == (LookV { p: program@, models: models@, node, delta: delta@ }),
                self@ == start.with_indirect(look, sites@, i as int),
            decreases sites@.len() - i,
        {
            if let Some(cs) = site(program, sites[i]) {
                let callees = self.reached(program, delta);
                let ghost mid = self@;
                let mut j: usize = 0;
                while j < callees.len()
                    invariant
                        program.wf(),
                        j <= callees@.len(),
                        self@ == mid.with_callees(
                            program@,
                            models@,
                            cs@,
                            callees@,
                            j as int,
                        ),
                    decreases callees@.len() - j,
                {
                    self.callee(program, models, cs, callees[j]);
                    j = j + 1;
                }
            }
            i = i + 1;
        }
    }

    fn travel(&mut self, program: &Program, models: &FnModelSet, node: u32, delta: &Vec<u32>)
        requires
            program.wf(),
        ensures
            final(self)@ == old(self)@.travelled(
                LookV { p: program@, models: models@, node, delta: delta@ },
            ),
    {
        let ghost look = LookV { p: program@, models: models@, node, delta: delta@ };
        self.copies(node, delta);
        self.addresses(node);
        self.loads(node, delta);
        let into = self.pag.stores_into(node);
        self.stores(&into, Some(delta));
        let from = self.pag.stores_of(node);
        self.stores(&from, None);
        let geps = self.pag.geps_from(node);
        let ghost r5 = self@;
        let mut i: usize = 0;
        while i < geps.len()
            invariant
                i <= geps@.len(),
                look == (LookV { p: program@, models: models@, node, delta: delta@ }),
                self@ == r5.with_geps(look, geps@, i as int),
            decreases geps@.len() - i,
        {
            self.gep(program, node, delta, geps[i]);
            i = i + 1;
        }
        let lookups = self.pag.lookups_of(node);
        let ghost r6 = self@;
        let mut j: usize = 0;
        while j < lookups.len()
            invariant
                j <= lookups@.len(),
                look == (LookV { p: program@, models: models@, node, delta: delta@ }),
                self@ == r6.with_lookups(look, lookups@, j as int),
            decreases lookups@.len() - j,
        {
            if lookups[j] < self.pag.constraint_count() {
                let dst = self.pag.constraint(lookups[j]).dst;
                self.look_up(program, dst.0, delta);
            }
            j = j + 1;
        }
        self.indirect(program, models, node, delta);
    }
}

fn add_reached(program: &Program, f: FnId, out: &mut Vec<FnId>)
    ensures
        final(out)@ == old(out)@ + program@.reached(f),
{
    if let Some(func) = program.symbols.function_by_id(f) {
        if func.is_defined {
            out.push(f);
            assert(out@ =~= old(out)@ + seq![f]);
        } else {
            let all = program.symbols.resolve_function_candidates(
                func.name.as_str(),
                Some(func.file),
            );
            let ghost start = out@;
            let mut i: usize = 0;
            assert(out@ =~= start + program@.defined_among(all@, 0));
            while i < all.len()
                invariant
                    i <= all@.len(),
                    out@ == start + program@.defined_among(all@, i as int),
                decreases all@.len() - i,
            {
                let ghost before = out@;
                if let Some(g) = program.symbols.function_by_id(all[i]) {
                    if g.is_defined {
                        out.push(all[i]);
                        assert(out@ =~= start + program@.defined_among(all@, i as int).push(
                            all@[i as int],
                        ));
                    }
                }
                i = i + 1;
            }
            out.push(f);
            assert(out@ =~= start + program@.defined_among(all@, all@.len() as int).push(f));
        }
    } else {
        assert(out@ =~= old(out)@ + Seq::empty());
    }
}

impl SolverState {
    fn functions(&mut self, pag: &Pag)
        requires
            old(self)@.fn_locs == Set::<u32>::empty(),
        ensures
            final(self)@ == old(self)@.with_fn_locs(pag@),
    {
        let count = pag.location_count();
        let mut i: usize = 0;
        while i < count && i <= u32::MAX as usize
            invariant
                i <= count == pag@.locations.len(),
                i <= u32::MAX + 1,
                self@ == (SolverV { fn_locs: self@.fn_locs, ..old(self)@ }),
                forall|l: u32| #[trigger]
                    self@.fn_locs.contains(l) <==> l < i && pag@.function_at(LocId(l)) is Some,
            decreases count - i,
        {
            if pag.function_at(LocId(i as u32)).is_some() {
                self.note_function(i as u32);
            }
            i = i + 1;
        }
        assert(self@.fn_locs =~= old(self)@.with_fn_locs(pag@).fn_locs);
    }

    fn guards(&mut self, program: &Program, pag: &Pag)
        ensures
            final(self)@ == old(self)@.with_guards(
                program@,
                pag@,
                pag@.locations.len() as int,
            ),
    {
        let count = pag.location_count();
        let mut i: usize = 0;
        while i < count
            invariant
                i <= count == pag@.locations.len(),
                self@ == old(self)@.with_guards(program@, pag@, i as int),
            decreases count - i,
        {
            let loc = pag.location_at(i);
            assert(program@.guard_of(pag@.locations[i as int]) == program@.guard_of(loc@));
            if let Some(g) = guard_of(program, loc.type_id) {
                self.guard(loc.id.0, g);
            }
            i = i + 1;
        }
    }

    fn arities(&mut self, program: &Program, pag: &Pag)
        ensures
            final(self)@ == old(self)@.with_arities(
                program@,
                pag@,
                pag@.fn_locations.len() as int,
            ),
    {
        let count = pag.fn_location_count();
        let mut i: usize = 0;
        while i < count
            invariant
                i <= count == pag@.fn_locations.len(),
                self@ == old(self)@.with_arities(program@, pag@, i as int),
            decreases count - i,
        {
            let (f, l) = pag.fn_location_at(i);
            if let Some(func) = program.symbols.function_by_id(FnId(f)) {
                if func.params.len() > 0 {
                    self.set_arity(l, func.params.len());
                }
            }
            i = i + 1;
        }
    }

    fn constrained(&mut self, pag: &Pag)
        ensures
            final(self)@ == old(self)@.with_constrained(pag@, pag@.constraints.len() as int),
    {
        let count = pag.constraint_count();
        let mut i: usize = 0;
        while i < count
            invariant
                i <= count == pag@.constraints.len(),
                self@ == old(self)@.with_constrained(pag@, i as int),
            decreases count - i,
        {
            self.push(pag.constraint(i).dst.0);
            self.push(pag.constraint(i).src.0);
            i = i + 1;
        }
    }

    fn seeds(&mut self, pag: &Pag)
        ensures
            final(self)@ == old(self)@.with_seeds(pag@, pag@.constraints.len() as int),
    {
        let count = pag.constraint_count();
        let mut i: usize = 0;
        while i < count
            invariant
                i <= count == pag@.constraints.len(),
                self@ == old(self)@.with_seeds(pag@, i as int),
            decreases count - i,
        {
            let c = pag.constraint(i);
            if c.kind == ConstraintKind::AddrOf {
                if let Some(PagNodeKind::Loc(l)) = pag.kind_of(c.src) {
                    self.add_pts(c.dst.0, l.0);
                }
            }
            i = i + 1;
        }
    }

    fn seen(&mut self, pag: &Pag)
        ensures
            final(self)@ == old(self)@.with_seen(pag@, pag@.constraints.len() as int),
    {
        let count = pag.constraint_count();
        let mut i: usize = 0;
        while i < count
            invariant
                i <= count == pag@.constraints.len(),
                self@ == old(self)@.with_seen(pag@, i as int),
            decreases count - i,
        {
            let c = pag.constraint(i);
            if c.kind == ConstraintKind::AddrOf {
                self.see(c.dst.0);
            }
            i = i + 1;
        }
    }

    fn places(&mut self, program: &Program, pag: &Pag)
        ensures
            final(self)@ == old(self)@.with_places(
                program@.symbols.variables,
                pag@,
                program@.symbols.variables.len() as int,
            ),
    {
        let count = program.symbols.variable_count();
        let mut i: usize = 0;
        while i < count
            invariant
                i <= count == program@.symbols.variables.len(),
                self@ == old(self)@.with_places(program@.symbols.variables, pag@, i as int),
            decreases count - i,
        {
            let v = program.symbols.variable_at(i);
            if is_lasting(v.storage) {
                if let Some(l) = pag.location_of_var(v.id) {
                    if let Some(node) = pag.node_of_var(v.id) {
                        self.add_pts(node.0, l.0);
                    }
                }
            }
            i = i + 1;
        }
    }
}

/// How an analysis is to be made.
#[derive(Debug)]
pub struct AnalyzeOptions {
    /// Whether what nodes may hold is part of the result.
    pub retain_points_to: bool,
    /// The effects of functions without a body.
    pub models: FnModelSet,
    /// How many nodes are looked at, at most. No limit if there is none.
    pub solve_budget: Option<u64>,
    /// Whether calls between processes are part of the call graph.
    pub enable_ipc: bool,
}

impl Default for AnalyzeOptions {
    fn default() -> (r: Self)
        ensures
            !r.retain_points_to,
            r.models@ == builtin_models(),
            r.solve_budget == Some(800_000u64),
            r.enable_ipc,
    {
        AnalyzeOptions {
            retain_points_to: false,
            models: FnModelSet::builtin(),
            solve_budget: Some(800_000),
            enable_ipc: true,
        }
    }
}

/// What an analysis has found.
pub struct AnalysisResult {
    /// What nodes may hold, where that is asked for.
    pub points_to: Vec<(PagNodeId, Vec<LocId>)>,
    pub call_edges: Vec<CallGraphEdge>,
    pub arg_flow_edges: Vec<ArgFlowEdge>,
    /// The arguments that have been wired to parameters: call site, position,
    /// function.
    pub wired_arg_flow: FxHashSet<(u32, u32, u32)>,
    /// The arguments that a call ends the life of.
    pub terminator_events: Vec<(CallSiteId, u32)>,
    /// Whether the budget ran out before all was known.
    pub partial: bool,
}

/// The mathematical form of an [`AnalysisResult`].
#[verifier::ext_equal]
pub struct ResultV {
    pub points_to: Seq<(PagNodeId, Seq<u32>)>,
    pub call_edges: Seq<CallGraphEdge>,
    pub arg_flow_edges: Seq<ArgFlowEdge>,
    pub wired_arg_flow: Set<(u32, u32, u32)>,
    pub terminator_events: Seq<(CallSiteId, u32)>,
    pub partial: bool,
}

pub open spec fn points_view(s: Seq<(PagNodeId, Vec<LocId>)>) -> Seq<(PagNodeId, Seq<u32>)> {
    Seq::new(s.len(), |i: int| (s[i].0, loc_numbers(s[i].1@)))
}

impl View for AnalysisResult {
    type V = ResultV;

    open spec fn view(&self) -> ResultV {
        ResultV {
            points_to: points_view(self.points_to@),
            call_edges: self.call_edges@,
            arg_flow_edges: self.arg_flow_edges@,
            wired_arg_flow: self.wired_arg_flow@,
            terminator_events: self.terminator_events@,
            partial: self.partial,
        }
    }
}

/// What those of the first `n` nodes may hold that may hold anything.
pub open spec fn points_of(st: SolverV, n: int) -> Seq<(PagNodeId, Seq<u32>)>
    decreases n,
{
    if n <= 0 {
        Seq::empty()
    } else {
        let before = points_of(st, n - 1);
        let node = (n - 1) as u32;
        if st.pts_of(node).len() > 0 {
            before.push((PagNodeId(node), st.pts_of(node)))
        } else {
            before
        }
    }
}

impl PagV {
    /// Without bridges.
    pub open spec fn unbridged(self) -> PagV {
        PagV { ipc_bridges: Seq::empty(), ..self }
    }

    /// How many looks a budget allows: without one, as many as it takes.
    pub open spec fn looks(self, p: ProgramV, models: Seq<ModelV>, budget: Option<u64>) -> nat {
        match budget {
            Some(n) => n as nat,
            None => self.start(p, models).looks_left(p, models),
        }
    }

    /// What solving finds. Bridges have no part in it: their edges come last.
    pub open spec fn solution(
        self,
        p: ProgramV,
        models: Seq<ModelV>,
        retain: bool,
        budget: Option<u64>,
    ) -> (PagV, ResultV) {
        let start = self.unbridged().start(p, models);
        let n = self.unbridged().looks(p, models, budget);
        let end = start.run(p, models, n);
        (
            PagV { ipc_bridges: self.ipc_bridges, ..end.pag },
            ResultV {
                points_to: if retain {
                    points_of(end.st, end.pag.nodes.len() as int)
                } else {
                    Seq::empty()
                },
                call_edges: with_bridges(end.edges, p, self, self.ipc_bridges.len() as int),
                arg_flow_edges: Seq::empty(),
                wired_arg_flow: end.wired,
                terminator_events: end.ends,
                partial: !start.settles(p, models, n),
            },
        )
    }
}

/// Where the argument at a position goes, if it has been wired.
pub open spec fn arg_flow_of(
    cs: SiteV,
    callee: FnId,
    formal: VarId,
    k: u32,
    wired: Set<(u32, u32, u32)>,
) -> Option<ArgFlowEdge> {
    if wired.contains((cs.id.0, k, callee.0)) {
        match arg_at(cs.var_args, k, 0) {
            Some(v) => Some(
                ArgFlowEdge {
                    call_site: cs.id,
                    arg_index: k,
                    actual_var: Some(v),
                    actual_fn: None,
                    formal,
                },
            ),
            None => match fn_arg_at(cs.fn_args, k, 0) {
                Some(f) => Some(
                    ArgFlowEdge {
                        call_site: cs.id,
                        arg_index: k,
                        actual_var: None,
                        actual_fn: Some(f),
                        formal,
                    },
                ),
                None => None,
            },
        }
    } else {
        None
    }
}

/// Where the arguments at the first `n` positions go.
pub open spec fn arg_flows_of(
    cs: SiteV,
    callee: FnId,
    params: Seq<VarId>,
    wired: Set<(u32, u32, u32)>,
    n: int,
) -> Seq<ArgFlowEdge>
    decreases n,
{
    if n <= 0 {
        Seq::empty()
    } else {
        let before = arg_flows_of(cs, callee, params, wired, n - 1);
        match arg_flow_of(cs, callee, params[n - 1], (n - 1) as u32, wired) {
            Some(e) => before.push(e),
            None => before,
        }
    }
}

impl ProgramV {
    /// Where the arguments of one call go.
    pub open spec fn arg_flows_at(self, edge: CallGraphEdge, wired: Set<(u32, u32, u32)>) -> Seq<
        ArgFlowEdge,
    > {
        if edge.call_site.0 == SYNTHETIC_CALL_SITE {
            Seq::empty()
        } else {
            match (self.site(edge.call_site), self.symbols.function(edge.callee)) {
                (Some(cs), Some(f)) => arg_flows_of(
                    cs,
                    edge.callee,
                    f.params,
                    wired,
                    f.params.len() as int,
                ),
                _ => Seq::empty(),
            }
        }
    }

    /// Where the arguments of the first `n` calls go.
    pub open spec fn arg_flows(
        self,
        edges: Seq<CallGraphEdge>,
        wired: Set<(u32, u32, u32)>,
        n: int,
    ) -> Seq<ArgFlowEdge>
        decreases n,
    {
        if n <= 0 {
            Seq::empty()
        } else {
            self.arg_flows(edges, wired, n - 1) + self.arg_flows_at(edges[n - 1], wired)
        }
    }

    /// The graph of a program, with bridges if they are asked for.
    pub open spec fn asked_graph(self, models: Seq<ModelV>, ipc: bool) -> PagV {
        if ipc {
            self.graph(models)
        } else {
            self.graph(models).unbridged()
        }
    }

    /// The analysis of a program.
    pub open spec fn analysis(
        self,
        retain: bool,
        models: Seq<ModelV>,
        budget: Option<u64>,
        ipc: bool,
    ) -> (PagV, ResultV) {
        let (q, r) = self.asked_graph(models, ipc).solution(self, models, retain, budget);
        (
            q,
            ResultV {
                arg_flow_edges: self.arg_flows(
                    r.call_edges,
                    r.wired_arg_flow,
                    r.call_edges.len() as int,
                ),
                ..r
            },
        )
    }
}

fn points_to(st: &SolverState, count: usize) -> (r: Vec<(PagNodeId, Vec<LocId>)>)
    ensures
        points_view(r@) == points_of(st@, count as int),
{
    let mut out: Vec<(PagNodeId, Vec<LocId>)> = Vec::new();
    let mut i: usize = 0;
    assert(points_view(out@) =~= Seq::empty());
    while i < count
        invariant
            i <= count,
            points_view(out@) == points_of(st@, i as int),
        decreases count - i,
    {
        let node = i as u32;
        let held = st.pts_of(node);
        if held.len() > 0 {
            let mut locs: Vec<LocId> = Vec::new();
            let mut j: usize = 0;
            while j < held.len()
                invariant
                    j <= held@.len(),
                    loc_numbers(locs@) == held@.take(j as int),
                decreases held@.len() - j,
            {
                let ghost before = locs@;
                locs.push(LocId(held[j]));
                assert(loc_numbers(locs@) =~= loc_numbers(before).push(held@[j as int]));
                proof {
                    take_push(held@, j as int);
                }
                j = j + 1;
            }
            assert(held@.take(j as int) =~= held@);
            let ghost before = out@;
            out.push((PagNodeId(node), locs));
            assert(points_view(out@) =~= points_view(before).push((PagNodeId(node), held@)));
        }
        i = i + 1;
    }
    out
}

fn add_bridges(edges: &mut Vec<CallGraphEdge>, program: &Program, pag: &Pag)
    ensures
        final(edges)@ == with_bridges(
            old(edges)@,
            program@,
            pag@,
            pag@.ipc_bridges.len() as int,
        ),
{
    let count = pag.bridge_count();
    let mut i: usize = 0;
    while i < count
        invariant
            i <= count == pag@.ipc_bridges.len(),
            edges@ == with_bridges(old(edges)@, program@, pag@, i as int),
        decreases count - i,
    {
        let b = pag.bridge_at(i);
        if let Some(f) = program.symbols.function_by_id(b.stub_handler) {
            if f.is_defined {
                edges.push(
                    CallGraphEdge {
                        call_site: CallSiteId(SYNTHETIC_CALL_SITE),
                        caller: b.proxy_method,
                        callee: b.stub_handler,
                        resolution: ResolutionKind::IpcBridge,
                    },
                );
            }
        }
        i = i + 1;
    }
}

proof fn same_bridges(edges: Seq<CallGraphEdge>, p: ProgramV, a: PagV, b: PagV, n: int)
    requires
        a.ipc_bridges == b.ipc_bridges,
    ensures
        with_bridges(edges, p, a, n) == with_bridges(edges, p, b, n),
    decreases n,
{
    if n > 0 {
        same_bridges(edges, p, a, b, n - 1);
    }
}

/// Solves the graph of a program: finds what nodes may hold and which
/// functions calls reach, until nothing new is found or the budget is used up.
pub fn solve(
    pag: Pag,
    program: &Program,
    retain_points_to: bool,
    models: &FnModelSet,
    budget: Option<u64>,
) -> (r: (Pag, AnalysisResult))
    requires
        program.wf(),
    ensures
        (r.0@, r.1@) == pag@.solution(program@, models@, retain_points_to, budget),
{
    let ghost p0 = pag@;
    let (pag, bridges) = pag.take_bridges();
    let mut st = SolverState::new();
    st.functions(&pag);
    st.guards(program, &pag);
    st.arities(program, &pag);
    st.constrained(&pag);
    st.seeds(&pag);
    st.seen(&pag);
    st.places(program, &pag);
    let mut run = Run {
        pag,
        st,
        edges: Vec::new(),
        resolved: fx_map(),
        wired: fx_set(),
        ends: Vec::new(),
    };
    assert(run@.resolved =~= Map::empty());
    run.direct_calls(program, models);
    let ghost start = run@;
    assert(start == p0.unbridged().start(program@, models@));
    let ghost all = p0.unbridged().looks(program@, models@, budget);
    let mut left = budget;
    let mut partial = false;
    let mut done = false;
    while !done
        invariant
            program.wf(),
            left is Some == budget is Some,
            !done ==> !partial,
            !done ==> ({
                let n = match left {
                    Some(n) => n as nat,
                    None => run@.looks_left(program@, models@),
                };
                &&& run@.run(program@, models@, n) == start.run(program@, models@, all)
                &&& run@.settles(program@, models@, n) == start.settles(program@, models@, all)
            }),
            done ==> run@ == start.run(program@, models@, all),
            done ==> partial == !start.settles(program@, models@, all),
        decreases
                (if done {
                    0int
                } else {
                    1int
                }),
                to_come(run@).len(),
                run@.st.worklist.len(),
    {
        let ghost before = run@;
        match run.st.pop() {
            Some(node) => {
                let over = match left {
                    Some(n) => n == 0,
                    None => false,
                };
                if over {
                    partial = true;
                    done = true;
                } else {
                    let delta = run.st.take_delta(node);
                    if delta.len() == 0 {
                        run.first_look(program, node);
                    } else {
                        run.travel(program, models, node, &delta);
                    }
                    assert(run@ == before.step(program@, models@));
                    proof {
                        step_ends(before, program@, models@);
                    }
                    if let Some(n) = left {
                        left = Some(n - 1);
                    }
                }
            },
            None => {
                done = true;
            },
        }
    }
    let mut edges = run.edges;
    let pag = run.pag.put_bridges(bridges);
    add_bridges(&mut edges, program, &pag);
    assert(edges@ == with_bridges(
        run@.edges,
        program@,
        p0,
        p0.ipc_bridges.len() as int,
    )) by {
        same_bridges(run@.edges, program@, pag@, p0, p0.ipc_bridges.len() as int);
    }
    let held = if retain_points_to {
        points_to(&run.st, pag.node_count())
    } else {
        let none: Vec<(PagNodeId, Vec<LocId>)> = Vec::new();
        assert(points_view(none@) =~= Seq::empty());
        none
    };
    (
        pag,
        AnalysisResult {
            points_to: held,
            call_edges: edges,
            arg_flow_edges: Vec::new(),
            wired_arg_flow: run.wired,
            terminator_events: run.ends,
            partial,
        },
    )
}

/// Where the arguments of calls go.
fn extract_arg_flow(
    program: &Program,
    edges: &Vec<CallGraphEdge>,
    wired: &FxHashSet<(u32, u32, u32)>,
) -> (r: Vec<ArgFlowEdge>)
    ensures
        r@ == program@.arg_flows(edges@, wired@, edges@.len() as int),
{
    let mut out: Vec<ArgFlowEdge> = Vec::new();
    let mut i: usize = 0;
    assert(out@ =~= Seq::empty());
    while i < edges.len()
        invariant
            i <= edges@.len(),
            out@ == program@.arg_flows(edges@, wired@, i as int),
        decreases edges@.len() - i,
    {
        let edge = edges[i];
        let ghost start = out@;
        let mut added = false;
        if edge.call_site.0 != SYNTHETIC_CALL_SITE {
            if let Some(cs) = site(program, edge.call_site) {
                if let Some(f) = program.symbols.function_by_id(edge.callee) {
                    added = true;
                    let mut k: usize = 0;
                    assert(out@ =~= start + arg_flows_of(
                        cs@,
                        edge.callee,
                        f.params@,
                        wired@,
                        0,
                    ));
                    while k < f.params.len()
                        invariant
                            k <= f.params@.len(),
                            out@ == start + arg_flows_of(
                                cs@,
                                edge.callee,
                                f.params@,
                                wired@,
                                k as int,
                            ),
                        decreases f.params@.len() - k,
                    {
                        let ghost before = arg_flows_of(
                            cs@,
                            edge.callee,
                            f.params@,
                            wired@,
                            k as int,
                        );
                        if let Some(e) = find_arg_flow(
                            cs,
                            edge.callee,
                            f.params[k],
                            k as u32,
                            wired,
                        ) {
                            out.push(e);
                            assert(out@ =~= start + before.push(e));
                        }
                        k = k + 1;
                    }
                }
            }
        }
        if !added {
            assert(out@ =~= start + Seq::empty());
        }
        i = i + 1;
    }
    out
}

fn find_arg_flow(
    cs: &CallSite,
    callee: FnId,
    formal: VarId,
    k: u32,
    wired: &FxHashSet<(u32, u32, u32)>,
) -> (r: Option<ArgFlowEdge>)
    ensures
        r == arg_flow_of(cs@, callee, formal, k, wired@),
{
    if !fx_set_contains(wired, (cs.id.0, k, callee.0)) {
        return None;
    }
    if let Some(v) = find_arg(&cs.var_args, k) {
        return Some(
            ArgFlowEdge {
                call_site: cs.id,
                arg_index: k,
                actual_var: Some(v),
                actual_fn: None,
                formal,
            },
        );
    }
    match find_fn_arg(&cs.fn_args, k) {
        Some(f) => Some(
            ArgFlowEdge {
                call_site: cs.id,
                arg_index: k,
                actual_var: None,
                actual_fn: Some(f),
                formal,
            },
        ),
        None => None,
    }
}

/// The analysis of a program.
pub fn analyze(program: &Program) -> (r: (Pag, AnalysisResult))
    requires
        program.wf(),
    ensures
        (r.0@, r.1@) == program@.analysis(
            false,
            builtin_models(),
            Some(800_000u64),
            true,
        ),
{
    analyze_with_options(program, AnalyzeOptions::default())
}

/// The analysis of a program.
pub fn analyze_with_options(program: &Program, opts: AnalyzeOptions) -> (r: (Pag, AnalysisResult))
    requires
        program.wf(),
    ensures
        (r.0@, r.1@) == program@.analysis(
            opts.retain_points_to,
            opts.models@,
            opts.solve_budget,
            opts.enable_ipc,
        ),
{
    let mut pag = Pag::build_with_models(program, &opts.models);
    if !opts.enable_ipc {
        pag.clear_bridges();
    }
    let (pag, mut result) = solve(
        pag,
        program,
        opts.retain_points_to,
        &opts.models,
        opts.solve_budget,
    );
    result.arg_flow_edges =
    extract_arg_flow(program, &result.call_edges, &result.wired_arg_flow);
    (pag, result)
}

} // verus!
