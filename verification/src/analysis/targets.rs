//! Which functions calls reach, and which places functions get into, by what is
//! declared.

use crate::analysis::bridges::{class_part, ends_in, stub_class};
use crate::analysis::calls::pointers_are_called;
use crate::analysis::constraints::{CallGraphEdge, ResolutionKind};
use crate::analysis::laws::{
    direct_calls_have_edges, guarded, looks, may_hold, run_keeps, solved_graph, start_keeps,
};
use crate::analysis::models::{builtin_models, model_of, Effect, ModelV};
use crate::analysis::pag::{through_field, PagV};
use crate::analysis::places::{graphs_are_placed, placed};
use crate::analysis::progress::{direct_edge, indirect_edge};
use crate::analysis::solver::RunV;
use crate::analysis::state::SolverV;
use crate::ir::ids::{FnId, LocId, VarId};
use crate::ir::ipc::BridgeV;
use crate::ir::program::{last_segment, segment_start, ProgramV};
use crate::ir::symbol::SiteV;
use crate::ir::types::DescV;
use vstd::prelude::*;

verus! {

proof fn defined_are_kept(p: ProgramV, fns: Seq<FnId>, n: int)
    requires
        0 <= n <= fns.len(),
    ensures
        forall|f: FnId| #[trigger]
            p.defined_among(fns, n).contains(f) <==> (p.symbols.function(f) matches Some(x)
                && x.is_defined) && exists|k: int| 0 <= k < n && #[trigger] fns[k] == f,
    decreases n,
{
    if n > 0 {
        defined_are_kept(p, fns, n - 1);
        let before = p.defined_among(fns, n - 1);
        let all = p.defined_among(fns, n);
        assert forall|f: FnId| #[trigger] all.contains(f) <==> (p.symbols.function(f) matches Some(
            x,
        ) && x.is_defined) && exists|k: int| 0 <= k < n && #[trigger] fns[k] == f by {
            if all.contains(f) {
                let k = choose|k: int| 0 <= k < all.len() && all[k] == f;
                if k < before.len() {
                    assert(before[k] == f);
                    assert(before.contains(f));
                } else {
                    assert(fns[n - 1] == f);
                }
            }
            if before.contains(f) {
                let k = choose|k: int| 0 <= k < before.len() && before[k] == f;
                assert(all[k] == f);
            }
            if fns[n - 1] == f && (p.symbols.function(f) matches Some(x) && x.is_defined) {
                assert(all[all.len() - 1] == f);
            }
        }
    }
}

/// A call through a pointer to a function reaches that function; where it has no
/// body, it reaches those that have one among what its name may mean in its
/// file; and nothing else.
pub proof fn pointers_lead_to_their_function(p: ProgramV, f: FnId, g: FnId)
    requires
        p.symbols.function(f) is Some,
    ensures
        p.reached(f).contains(f),
        ({
            let func = p.symbols.function(f)->0;
            p.reached(f).contains(g) <==> g == f || (!func.is_defined && p.symbols.candidates(
                func.name,
                Some(func.file),
            ).contains(g) && (p.symbols.function(g) matches Some(x) && x.is_defined))
        }),
{
    let func = p.symbols.function(f)->0;
    if func.is_defined {
        assert(seq![f][0] == f);
    } else {
        let all = p.symbols.candidates(func.name, Some(func.file));
        let some = p.defined_among(all, all.len() as int);
        defined_are_kept(p, all, all.len() as int);
        let r = p.reached(f);
        assert(r[some.len() as int] == f);
        if some.contains(g) {
            let k = choose|k: int| 0 <= k < some.len() && some[k] == g;
            assert(r[k] == g);
        }
        if r.contains(g) && g != f {
            let k = choose|k: int| 0 <= k < r.len() && r[k] == g;
            assert(some[k] == g);
        }
    }
}

/// A call through a variable has an edge to every function that the variable
/// may hold, unless the result is partial, as it never is without a budget.
pub proof fn pointers_call_what_they_hold(
    p: ProgramV,
    retain: bool,
    models: Seq<ModelV>,
    budget: Option<u64>,
    ipc: bool,
    k: int,
    v: VarId,
    l: u32,
    f: FnId,
)
    requires
        p.graph(models).constraints.len() <= usize::MAX,
        budget is None || !p.analysis(retain, models, budget, ipc).1.partial,
        0 <= k < p.symbols.call_sites.len(),
        p.symbols.call_sites[k].id.0 == k,
        !p.symbols.call_sites[k].is_direct,
        p.symbols.call_sites[k].callee_var == Some(v),
        match solved_graph(p, models).node_of_var(v) {
            Some(n) => may_hold(solved_graph(p, models), p, models, looks(p, models, budget), n.0, l),
            None => false,
        },
        p.graph(models).function_at(LocId(l)) == Some(f),
        p.symbols.function(f) is Some,
    ensures
        exists|caller: FnId| #[trigger]
            p.analysis(retain, models, budget, ipc).1.call_edges.contains(
                called_through_a_pointer(p.symbols.call_sites[k], caller, f),
            ),
{
    pointers_lead_to_their_function(p, f, f);
    pointers_are_called(p, retain, models, budget, ipc, k, v, l, f);
    let edges = p.analysis(retain, models, budget, ipc).1.call_edges;
    let caller = choose|caller: FnId| #[trigger]
        edges.contains(
            indirect_edge(p.symbols.call_sites[k].id.0, caller, f),
        );
    assert(edges.contains(called_through_a_pointer(p.symbols.call_sites[k], caller, f)));
}

/// The edge of a call through a pointer.
pub open spec fn called_through_a_pointer(cs: SiteV, caller: FnId, f: FnId) -> CallGraphEdge {
    CallGraphEdge { call_site: cs.id, caller, callee: f, resolution: ResolutionKind::Indirect }
}

/// Whether a name is written through a field: with `.` or `->`.
pub open spec fn names_a_field(name: Seq<char>) -> bool {
    exists|i: int|
        0 <= i < name.len() && (#[trigger] name[i] == '.' || (i + 1 < name.len() && name[i] == '-'
            && name[i + 1] == '>'))
}

/// A call that has been bound to a function, a direct call by a name that means
/// one in its file, and a call by a plain name that may mean one there, have an
/// edge to it, whatever the budget: a direct one if it has a body, else an
/// external one.
pub proof fn named_calls_have_edges(
    p: ProgramV,
    retain: bool,
    models: Seq<ModelV>,
    budget: Option<u64>,
    ipc: bool,
    k: int,
    f: FnId,
)
    requires
        p.graph(models).constraints.len() <= usize::MAX,
        0 <= k < p.symbols.call_sites.len(),
        p.symbols.function(f) is Some,
        ({
            let cs = p.symbols.call_sites[k];
            ||| cs.callee_fn_id == Some(f)
            ||| cs.callee_fn_id is None && cs.is_direct && p.symbols.resolve_in_scope(
                cs.callee_name,
                Some(cs.span.file),
            ) == Some(f)
            ||| cs.callee_fn_id is None && !cs.is_direct && cs.callee_var is None
                && !names_a_field(cs.callee_name) && p.symbols.candidates(
                cs.callee_name,
                Some(cs.span.file),
            ).contains(f)
        }),
    ensures
        ({
            let cs = p.symbols.call_sites[k];
            p.analysis(retain, models, budget, ipc).1.call_edges.contains(
                CallGraphEdge {
                    call_site: cs.id,
                    caller: cs.caller,
                    callee: f,
                    resolution: if p.symbols.function(f)->0.is_defined {
                        ResolutionKind::Direct
                    } else {
                        ResolutionKind::External
                    },
                },
            )
        }),
{
    let cs = p.symbols.call_sites[k];
    let all = p.direct_callees(cs);
    if cs.callee_fn_id is None && !cs.is_direct {
        assert(!through_field(cs.callee_name)) by {
            if cs.callee_name.contains('.') {
                let i = choose|i: int| 0 <= i < cs.callee_name.len() && cs.callee_name[i] == '.';
                assert(cs.callee_name[i] == '.');
            }
        }
    } else {
        assert(all[0] == f);
    }
    assert(all.contains(f));
    let i = choose|i: int| 0 <= i < all.len() && all[i] == f;
    direct_calls_have_edges(p, retain, models, budget, ipc, k, i);
    assert(direct_edge(p, cs, f) == (CallGraphEdge {
        call_site: cs.id,
        caller: cs.caller,
        callee: f,
        resolution: if p.symbols.function(f)->0.is_defined {
            ResolutionKind::Direct
        } else {
            ResolutionKind::External
        },
    }));
}

proof fn guards_are_those_of_types(s: SolverV, p: ProgramV, g: PagV, n: int, l: u32)
    requires
        0 <= n <= g.locations.len(),
        n <= u32::MAX + 1,
        forall|i: int| 0 <= i < n ==> (#[trigger] g.locations[i]).id.0 == i,
        !s.slot_guard.contains_key(l),
    ensures
        ({
            let m = s.with_guards(p, g, n).slot_guard;
            &&& m.contains_key(l) <==> l < n && p.guard_of(g.locations[l as int]) is Some
            &&& m.contains_key(l) ==> Some(m[l]) == p.guard_of(g.locations[l as int])
        }),
    decreases n,
{
    if n > 0 {
        guards_are_those_of_types(s, p, g, n - 1, l);
        assert(g.locations[n - 1].id.0 == n - 1);
    }
}

proof fn arities_leave_guards(s: SolverV, p: ProgramV, g: PagV, n: int)
    ensures
        s.with_arities(p, g, n).slot_guard == s.slot_guard,
    decreases n,
{
    if n > 0 {
        arities_leave_guards(s, p, g, n - 1);
    }
}

proof fn arities_are_those_of_functions(s: SolverV, p: ProgramV, g: PagV, n: int, x: u32)
    requires
        0 <= n <= g.fn_locations.len(),
        !s.fn_arity.contains_key(x),
    ensures
        ({
            let m = s.with_arities(p, g, n).fn_arity;
            m.contains_key(x) ==> exists|i: int|
                0 <= i < n && (#[trigger] g.fn_locations[i]).1 == x && (p.symbols.function(
                    FnId(g.fn_locations[i].0),
                ) matches Some(f) && f.params.len() > 0 && m[x] == f.params.len() as usize)
        }),
    decreases n,
{
    if n > 0 {
        arities_are_those_of_functions(s, p, g, n - 1, x);
    }
}

proof fn guards_leave_arities(s: SolverV, p: ProgramV, g: PagV, n: int)
    ensures
        s.with_guards(p, g, n).fn_arity == s.fn_arity,
    decreases n,
{
    if n > 0 {
        guards_leave_arities(s, p, g, n - 1);
    }
}

/// Whether a function with so many parameters fits a place, by the type of the
/// place: a pointer to a function takes functions with as many parameters, and
/// all if it gives none, or if the function does not; structures, unions,
/// arrays and other pointers take none; and all else takes all.
pub open spec fn fits(p: ProgramV, d: Option<DescV>, arity: nat) -> bool {
    match d {
        Some(DescV::FnPtr { ret, params }) => params.len() == 0 || arity == 0 || params.len()
            == arity,
        Some(DescV::Struct { name, fields }) => false,
        Some(DescV::Union { name, fields }) => false,
        Some(DescV::Ptr(inner)) => false,
        Some(DescV::Array { elem, size }) => false,
        _ => true,
    }
}

/// Functions get into the places that they fit, all through an analysis: what
/// the laws on loads and stores ask of a place and a function holds if every
/// function that has the place that is stored fits the type of the place that it
/// is stored in, or if the latter came up only while the program was solved.
pub proof fn functions_get_into_places_they_fit(
    p: ProgramV,
    models: Seq<ModelV>,
    budget: nat,
    l: u32,
    x: u32,
)
    requires
        p.graph(models).constraints.len() <= usize::MAX,
        p.graph(models).locations.len() <= u32::MAX,
        forall|f: FnId| #[trigger]
            p.symbols.function(f) is Some ==> p.symbols.function(f)->0.params.len() <= usize::MAX,
        ({
            let g = solved_graph(p, models);
            l < g.locations.len() ==> forall|i: int|
                0 <= i < g.fn_locations.len() && (#[trigger] g.fn_locations[i]).1 == x ==> (
                p.symbols.function(FnId(g.fn_locations[i].0)) matches Some(f) ==> fits(
                    p,
                    p.types.desc(g.locations[l as int].type_id),
                    f.params.len(),
                ))
        }),
        ({
            let g = solved_graph(p, models);
            l < g.locations.len() ==> fits(p, p.types.desc(g.locations[l as int].type_id), 0)
        }),
        forall|d: DescV|
            #![trigger p.types.desc(solved_graph(p, models).locations[l as int].type_id), d is FnPtr]
            p.types.desc(solved_graph(p, models).locations[l as int].type_id) == Some(d)
                && d is FnPtr ==> d->FnPtr_params.len() <= usize::MAX,
    ensures
        ({
            let g = solved_graph(p, models);
            g.start(p, models).run(p, models, budget).st.allows(l, x)
        }),
{
    let g = solved_graph(p, models);
    start_keeps(g, p, models);
    run_keeps(g.start(p, models), p, models, g, budget);
    let end = g.start(p, models).run(p, models, budget).st;
    assert(end.slot_guard == guarded(g, p).slot_guard);
    assert(end.fn_arity == guarded(g, p).fn_arity);
    graphs_are_placed(p, models);
    reveal(placed);
    let e = SolverV::empty().with_fn_locs(g);
    let s = e.with_guards(p, g, g.locations.len() as int);
    assert forall|i: int| 0 <= i < g.locations.len() implies (#[trigger] g.locations[i]).id.0
        == i by {
        assert(p.graph(models).locations[i].id.0 == i);
    }
    guards_are_those_of_types(e, p, g, g.locations.len() as int, l);
    arities_leave_guards(s, p, g, g.fn_locations.len() as int);
    guards_leave_arities(e, p, g, g.locations.len() as int);
    arities_are_those_of_functions(s, p, g, g.fn_locations.len() as int, x);
    if end.slot_guard.contains_key(l) {
        let d = p.types.desc(g.locations[l as int].type_id);
        assert(d->0 is FnPtr);
        if end.fn_arity.contains_key(x) {
            let i = choose|i: int|
                0 <= i < g.fn_locations.len() && (#[trigger] g.fn_locations[i]).1 == x && (
                p.symbols.function(FnId(g.fn_locations[i].0)) matches Some(f) && f.params.len()
                    > 0 && end.fn_arity[x] == f.params.len() as usize);
            let f = p.symbols.function(FnId(g.fn_locations[i].0))->0;
            assert(fits(p, d, f.params.len()));
        }
    }
}

/// What the models that are always there say: copies of memory hand on what
/// their source leads to, allocations return new storage, the storage that is
/// reallocated may be the same, and what is freed ends.
pub proof fn builtin_models_say_what_c_does()
    ensures
        has_effect(builtin_models(), "memcpy"@, Effect::MemCopy { dst: 0, src: 1 }),
        has_effect(builtin_models(), "memmove"@, Effect::MemCopy { dst: 0, src: 1 }),
        has_effect(builtin_models(), "memcpy_s"@, Effect::MemCopy { dst: 0, src: 2 }),
        has_effect(builtin_models(), "memmove_s"@, Effect::MemCopy { dst: 0, src: 2 }),
        has_effect(builtin_models(), "malloc"@, Effect::ReturnHeap),
        has_effect(builtin_models(), "calloc"@, Effect::ReturnHeap),
        has_effect(builtin_models(), "realloc"@, Effect::ReturnHeap),
        has_effect(builtin_models(), "realloc"@, Effect::ReturnAlias { param: 0 }),
        has_effect(builtin_models(), "free"@, Effect::Clears { param: 0 }),
        has_effect(builtin_models(), "dlsym"@, Effect::Dlsym { name_param: 1 }),
{
    reveal_strlit("memcpy");
    reveal_strlit("memmove");
    reveal_strlit("memcpy_s");
    reveal_strlit("memmove_s");
    reveal_strlit("malloc");
    reveal_strlit("calloc");
    reveal_strlit("realloc");
    reveal_strlit("free");
    reveal_strlit("dlsym");
    let ms = builtin_models();
    assert(ms[0].name == "memcpy"@ && "memcpy"@.len() == 6);
    assert(ms[1].name == "memmove"@ && "memmove"@.len() == 7);
    assert(ms[2].name == "memcpy_s"@ && "memcpy_s"@.len() == 8);
    assert(ms[3].name == "memmove_s"@ && "memmove_s"@.len() == 9);
    assert(ms[4].name == "malloc"@ && "malloc"@.len() == 6);
    assert(ms[5].name == "calloc"@ && "calloc"@.len() == 6);
    assert(ms[6].name == "realloc"@ && "realloc"@.len() == 7);
    assert(ms[7].name == "free"@ && "free"@.len() == 4);
    assert(ms[8].name == "dlsym"@ && "dlsym"@.len() == 5);
    assert("malloc"@[0] == 'm' && "malloc"@[1] == 'a');
    assert("memcpy"@[0] == 'm' && "memcpy"@[1] == 'e');
    assert("calloc"@[0] == 'c');
    assert("realloc"@[0] == 'r');
    assert("memmove"@[0] == 'm');
    model_is_at(ms, "memcpy"@, 0, 0, 0, Effect::MemCopy { dst: 0, src: 1 });
    model_is_at(ms, "memmove"@, 1, 0, 0, Effect::MemCopy { dst: 0, src: 1 });
    model_is_at(ms, "memcpy_s"@, 2, 0, 0, Effect::MemCopy { dst: 0, src: 2 });
    model_is_at(ms, "memmove_s"@, 3, 0, 0, Effect::MemCopy { dst: 0, src: 2 });
    model_is_at(ms, "malloc"@, 4, 0, 0, Effect::ReturnHeap);
    model_is_at(ms, "calloc"@, 5, 0, 0, Effect::ReturnHeap);
    model_is_at(ms, "realloc"@, 6, 0, 1, Effect::ReturnHeap);
    model_is_at(ms, "realloc"@, 6, 0, 0, Effect::ReturnAlias { param: 0 });
    model_is_at(ms, "free"@, 7, 0, 0, Effect::Clears { param: 0 });
    model_is_at(ms, "dlsym"@, 8, 0, 0, Effect::Dlsym { name_param: 1 });
}

proof fn model_is_at(
    models: Seq<ModelV>,
    name: Seq<char>,
    k: int,
    i: int,
    j: int,
    effect: Effect,
)
    requires
        0 <= i <= k < models.len(),
        models[k].name == name,
        forall|m: int| 0 <= m < k ==> (#[trigger] models[m]).name != name,
        0 <= j < models[k].effects.len(),
        models[k].effects[j] == effect,
    ensures
        model_of(models, name, i) == Some(models[k]),
        models[k].effects.contains(effect),
    decreases k - i,
{
    if i < k {
        assert(models[i].name != name);
        model_is_at(models, name, k, i + 1, j, effect);
    }
}

/// Whether the model of a function has an effect.
pub open spec fn has_effect(models: Seq<ModelV>, name: Seq<char>, effect: Effect) -> bool {
    model_of(models, name, 0) matches Some(m) && m.name == name && m.effects.contains(effect)
}

/// A copy of memory hands on from one argument to the other what
/// [`models_hand_on_what_is_known`](crate::analysis::results::models_hand_on_what_is_known)
/// says; a call that frees an argument ends it; and a function without a model
/// does nothing.
pub proof fn models_do_what_they_say(r: RunV, models: Seq<ModelV>, cs: SiteV, name: Seq<char>)
    ensures
        model_of(models, name, 0) is None ==> r.modeled(models, cs, name) == r,
        model_of(models, name, 0) matches Some(m) ==> forall|dst: u32, src: u32|
            m.effects == seq![Effect::MemCopy { dst, src }] ==> r.modeled(models, cs, name)
                == #[trigger] r.with_model_copy(cs, dst, src),
        model_of(models, name, 0) matches Some(m) ==> forall|ptr: u32, value: u32|
            m.effects == seq![Effect::ContentStore { ptr, value }] ==> r.modeled(models, cs, name)
                == #[trigger] r.with_model_store(cs, ptr, value),
        model_of(models, name, 0) matches Some(m) ==> forall|param: u32|
            m.effects == seq![Effect::Clears { param }] && #[trigger] r.pag.arg_node(
                cs,
                param,
            ) is Some ==> r.modeled(models, cs, name).ends.contains((cs.id, param)),
{
    reveal_with_fuel(RunV::with_effects, 2);
    if let Some(m) = model_of(models, name, 0) {
        assert forall|param: u32|
            m.effects == seq![Effect::Clears { param }] && #[trigger] r.pag.arg_node(
                cs,
                param,
            ) is Some implies r.modeled(models, cs, name).ends.contains((cs.id, param)) by {
            let t = r.modeled(models, cs, name);
            if !r.ends.contains((cs.id, param)) {
                assert(t.ends[t.ends.len() - 1] == (cs.id, param));
            }
        }
    }
}

proof fn bridges_hold(p: ProgramV, n: int)
    requires
        0 <= n <= p.symbols.functions.len(),
    ensures
        forall|b: BridgeV| #[trigger]
            p.bridges(n).contains(b) <==> b.descriptor == Seq::<char>::empty() && exists|i: int|
                0 <= i < n && (#[trigger] p.symbols.functions[i]).id == b.proxy_method
                    && p.handler_of(p.symbols.functions[i].name) == Some(b.stub_handler),
    decreases n,
{
    if n > 0 {
        bridges_hold(p, n - 1);
        let before = p.bridges(n - 1);
        let all = p.bridges(n);
        assert forall|b: BridgeV| #[trigger] all.contains(b) <==> b.descriptor == Seq::<
            char,
        >::empty() && exists|i: int|
            0 <= i < n && (#[trigger] p.symbols.functions[i]).id == b.proxy_method && p.handler_of(
                p.symbols.functions[i].name,
            ) == Some(b.stub_handler) by {
            if all.contains(b) {
                let k = choose|k: int| 0 <= k < all.len() && all[k] == b;
                if k < before.len() {
                    assert(before[k] == b);
                    assert(before.contains(b));
                } else {
                    assert(p.symbols.functions[n - 1].id == b.proxy_method);
                }
            }
            if before.contains(b) {
                let k = choose|k: int| 0 <= k < before.len() && before[k] == b;
                assert(all[k] == b);
            }
            if b.descriptor == Seq::<char>::empty() && p.symbols.functions[n - 1].id
                == b.proxy_method && p.handler_of(p.symbols.functions[n - 1].name) == Some(
                b.stub_handler,
            ) {
                let made = BridgeV {
                    proxy_method: p.symbols.functions[n - 1].id,
                    stub_handler: b.stub_handler,
                    descriptor: Seq::empty(),
                };
                assert(made == b);
                if !before.contains(b) {
                    assert(all[all.len() - 1] == b);
                }
            }
        }
    }
}

proof fn parts_of_a_member(cls: Seq<char>, method: Seq<char>, i: int)
    requires
        !method.contains(':'),
        cls.len() + 2 <= i <= cls.len() + 2 + method.len(),
    ensures
        segment_start(cls + "::"@ + method, i) == cls.len() + 2,
    decreases i,
{
    reveal_strlit("::");
    let full = cls + "::"@ + method;
    if i == cls.len() + 2 {
        assert(full[i - 2] == ':' && full[i - 1] == ':');
    } else {
        assert(full[i - 1] == method[i - 1 - cls.len() - 2]);
        assert(method.contains(full[i - 1]));
        parts_of_a_member(cls, method, i - 1);
    }
}

/// A method of a class whose name ends in `Proxy` has a bridge to the method of
/// the same name of the class that ends in `Stub` instead; where there is none,
/// to the one with `Handle` before its name, and else to the one with `Stub`
/// behind it. A function that is no method of such a class has none.
pub proof fn proxies_lead_to_stubs(p: ProgramV, i: int, x: Seq<char>, method: Seq<char>, h: FnId)
    requires
        0 <= i < p.symbols.functions.len(),
        p.symbols.functions[i].name == x + "Proxy"@ + "::"@ + method,
        !method.contains(':'),
    ensures
        ({
            let stub = x + "Stub"@;
            let b = BridgeV {
                proxy_method: p.symbols.functions[i].id,
                stub_handler: h,
                descriptor: Seq::empty(),
            };
            let all = p.bridges(p.symbols.functions.len() as int);
            &&& p.symbols.resolve(stub + "::"@ + method) == Some(h) ==> all.contains(b)
            &&& p.symbols.resolve(stub + "::"@ + method) is None && p.symbols.resolve(
                stub + "::Handle"@ + method,
            ) == Some(h) ==> all.contains(b)
            &&& p.symbols.resolve(stub + "::"@ + method) is None && p.symbols.resolve(
                stub + "::Handle"@ + method,
            ) is None && p.symbols.resolve(stub + "::"@ + (method + "Stub"@)) == Some(h)
                ==> all.contains(b)
        }),
{
    reveal_strlit("Proxy");
    reveal_strlit("::");
    let cls = x + "Proxy"@;
    let full = cls + "::"@ + method;
    parts_of_a_member(cls, method, full.len() as int);
    assert(class_part(full) =~= cls);
    assert(last_segment(full) =~= method);
    assert(cls.skip(cls.len() - "Proxy"@.len()) =~= "Proxy"@);
    assert(ends_in(cls, "Proxy"@));
    assert(cls.take(cls.len() - "Proxy"@.len()) =~= x);
    assert(stub_class(cls) == x + "Stub"@);
    bridges_hold(p, p.symbols.functions.len() as int);
}

/// Every bridge starts at a method of a class whose name ends in `Proxy`.
pub proof fn bridges_start_at_proxies(p: ProgramV, b: BridgeV)
    requires
        p.bridges(p.symbols.functions.len() as int).contains(b),
    ensures
        exists|i: int|
            0 <= i < p.symbols.functions.len() && (#[trigger] p.symbols.functions[i]).id
                == b.proxy_method && ends_in(class_part(p.symbols.functions[i].name), "Proxy"@),
{
    bridges_hold(p, p.symbols.functions.len() as int);
    let i = choose|i: int|
        0 <= i < p.symbols.functions.len() && (#[trigger] p.symbols.functions[i]).id
            == b.proxy_method && p.handler_of(p.symbols.functions[i].name) == Some(b.stub_handler);
    assert(ends_in(class_part(p.symbols.functions[i].name), "Proxy"@));
}

} // verus!
