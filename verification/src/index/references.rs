//! What variables and call sites of a program refer to.

use crate::collections::{has_key, key_position, with_entry};
use crate::entries::key_found;
use crate::index::laws::{
    externs_go_on, function_goes_on, goes_on, owners_go_on, sites_go_on, still_there, vars_go_on,
};
use crate::index::lower::laws::calls_are_in_functions;
use crate::index::merge::{MergeV, UnitV};
use crate::index::project::{are_units_of, finished, is_plan_for, uses_in, PlanV, UseV};
use crate::ir::ids::{FileId, FnId};
use crate::ir::program::{empty_program, ProgramV};
use crate::ir::symbol::{declared_is_there, fn_position, next_number, FnV, SiteV, SymbolsV, VarV};
use crate::preproc::options::canonical_of;
use crate::preproc::run::file_result;
use crate::preproc::state::OptionsV;
use vstd::prelude::*;

verus! {

/// Whether there is a function with a number.
pub open spec fn is_function(s: SymbolsV, f: FnId) -> bool {
    exists|i: int| 0 <= i < s.functions.len() && (#[trigger] s.functions[i]).id == f
}

/// Whether the function that a variable belongs to is there.
pub open spec fn var_refers(s: SymbolsV, v: VarV) -> bool {
    match v.fn_id {
        Some(f) => is_function(s, f),
        None => true,
    }
}

/// Whether the functions are there that a call site is in, leads to and
/// passes.
pub open spec fn site_refers(s: SymbolsV, c: SiteV) -> bool {
    &&& is_function(s, c.caller)
    &&& match c.callee_fn_id {
        Some(f) => is_function(s, f),
        None => true,
    }
    &&& forall|j: int| 0 <= j < c.fn_args.len() ==> is_function(s, (#[trigger] c.fn_args[j]).1)
}

/// Whether all functions are there that variables and call sites refer to.
pub open spec fn refers(s: SymbolsV) -> bool {
    &&& forall|i: int| 0 <= i < s.variables.len() ==> var_refers(s, #[trigger] s.variables[i])
    &&& forall|k: int| 0 <= k < s.call_sites.len() ==> site_refers(s, #[trigger] s.call_sites[k])
}

/// Whether the functions that have been brought from their places are there.
pub open spec fn brought_are_there(p: ProgramV) -> bool {
    forall|key: (u32, u32, Seq<char>)| #[trigger]
        p.dedup.fns.contains_key(key) ==> is_function(p.symbols, FnId(p.dedup.fns[key]))
}

/// Whether the callers of the call sites of a source are functions of it.
pub open spec fn callers_are_there(unit: UnitV) -> bool {
    forall|k: int|
        0 <= k < unit.call_sites.len() ==> exists|i: int|
            0 <= i < unit.functions.len() && (#[trigger] unit.functions[i]).id == (
            #[trigger] unit.call_sites[k]).caller
}

proof fn function_stays(a: SymbolsV, b: SymbolsV, f: FnId)
    requires
        goes_on(a, b),
        is_function(a, f),
    ensures
        is_function(b, f),
{
    let i = choose|i: int| 0 <= i < a.functions.len() && (#[trigger] a.functions[i]).id == f;
    assert(still_there(a.functions[i], b.functions[i]));
}

proof fn var_stays(a: SymbolsV, b: SymbolsV, v: VarV)
    requires
        goes_on(a, b),
        var_refers(a, v),
    ensures
        var_refers(b, v),
{
    match v.fn_id {
        Some(f) => {
            function_stays(a, b, f);
        },
        None => {},
    }
}

proof fn site_stays(a: SymbolsV, b: SymbolsV, c: SiteV)
    requires
        goes_on(a, b),
        site_refers(a, c),
    ensures
        site_refers(b, c),
{
    function_stays(a, b, c.caller);
    match c.callee_fn_id {
        Some(f) => {
            function_stays(a, b, f);
        },
        None => {},
    }
    assert forall|j: int| 0 <= j < c.fn_args.len() implies is_function(
        b,
        (#[trigger] c.fn_args[j]).1,
    ) by {
        function_stays(a, b, c.fn_args[j].1);
    }
}

/// Symbols with the same first variables and the same call sites, and no
/// function less.
proof fn refers_still(a: SymbolsV, b: SymbolsV, from: int)
    requires
        goes_on(a, b),
        refers_first(a, from),
        from <= b.variables.len(),
        forall|i: int| 0 <= i < from ==> #[trigger] b.variables[i] == a.variables[i],
        b.call_sites == a.call_sites,
    ensures
        refers_first(b, from),
{
    assert forall|i: int| 0 <= i < from implies var_refers(
        b,
        #[trigger] b.variables[i],
    ) by {
        var_stays(a, b, a.variables[i]);
    }
    assert forall|k: int| 0 <= k < b.call_sites.len() implies site_refers(
        b,
        #[trigger] b.call_sites[k],
    ) by {
        site_stays(a, b, a.call_sites[k]);
    }
}

proof fn brought_still(a: ProgramV, b: ProgramV)
    requires
        goes_on(a.symbols, b.symbols),
        brought_are_there(a),
        b.dedup.fns == a.dedup.fns,
    ensures
        brought_are_there(b),
{
    assert forall|key: (u32, u32, Seq<char>)| #[trigger]
        b.dedup.fns.contains_key(key) implies is_function(
        b.symbols,
        FnId(b.dedup.fns[key]),
    ) by {
        assert(a.dedup.fns.contains_key(key));
        function_stays(a.symbols, b.symbols, FnId(a.dedup.fns[key]));
    }
}

/// Whether the functions that a merge has numbers for are there.
spec fn numbers_lead(m: MergeV) -> bool {
    forall|i: int|
        0 <= i < m.fns.len() ==> is_function(m.program.symbols, FnId((#[trigger] m.fns[i]).1))
}

/// Whether all functions are there that call sites and the first `from`
/// variables refer to.
spec fn refers_first(s: SymbolsV, from: int) -> bool {
    &&& 0 <= from <= s.variables.len()
    &&& forall|i: int| 0 <= i < from ==> var_refers(s, #[trigger] s.variables[i])
    &&& forall|k: int| 0 <= k < s.call_sites.len() ==> site_refers(s, #[trigger] s.call_sites[k])
}

spec fn in_order(m: MergeV, from: int) -> bool {
    refers_first(m.program.symbols, from) && brought_are_there(m.program) && numbers_lead(m)
}

proof fn numbers_still(a: MergeV, b: MergeV)
    requires
        goes_on(a.program.symbols, b.program.symbols),
        numbers_lead(a),
        b.fns == a.fns,
    ensures
        numbers_lead(b),
{
    assert forall|i: int| 0 <= i < b.fns.len() implies is_function(
        b.program.symbols,
        FnId((#[trigger] b.fns[i]).1),
    ) by {
        function_stays(a.program.symbols, b.program.symbols, FnId(a.fns[i].1));
    }
}

/// A function that is known to a merge is there.
proof fn known_is_there(m: MergeV, f: FnId)
    requires
        numbers_lead(m),
    ensures
        match m.known_fn(f) {
            Some(g) => is_function(m.program.symbols, g),
            None => true,
        },
{
    key_found(m.fns, f.0, 0);
    if has_key(m.fns, f.0) {
        let i = key_position(m.fns, f.0, 0);
        assert(is_function(m.program.symbols, FnId(m.fns[i].1)));
    }
}

proof fn entry_leads(m: MergeV, b: MergeV, k: u32, f: u32)
    requires
        goes_on(m.program.symbols, b.program.symbols),
        numbers_lead(m),
        b.fns == with_entry(m.fns, k, f),
        is_function(b.program.symbols, FnId(f)),
    ensures
        numbers_lead(b),
        has_key(b.fns, k),
        forall|j: u32| #[trigger] has_key(m.fns, j) ==> has_key(b.fns, j),
{
    key_found(m.fns, k, 0);
    assert forall|i: int| 0 <= i < b.fns.len() implies is_function(
        b.program.symbols,
        FnId((#[trigger] b.fns[i]).1),
    ) by {
        if b.fns[i] != (k, f) {
            assert(b.fns[i] == m.fns[i]);
            function_stays(m.program.symbols, b.program.symbols, FnId(m.fns[i].1));
        }
    }
    assert(has_key(b.fns, k)) by {
        let at = if has_key(m.fns, k) {
            key_position(m.fns, k, 0)
        } else {
            m.fns.len() as int
        };
        assert(b.fns[at].0 == k);
        key_found(b.fns, k, 0);
    }
    assert forall|j: u32| #[trigger] has_key(m.fns, j) implies has_key(b.fns, j) by {
        key_found(m.fns, j, 0);
        let at = key_position(m.fns, j, 0);
        assert(b.fns[at].0 == j);
        key_found(b.fns, j, 0);
    }
}

proof fn with_fn_in_order(m: MergeV, f: FnV, from: int)
    requires
        in_order(m, from),
    ensures
        in_order(m.with_fn(f), from),
        m.with_fn(f).program.symbols.variables == m.program.symbols.variables,
        has_key(m.with_fn(f).fns, f.id.0),
        forall|j: u32| #[trigger] has_key(m.fns, j) ==> has_key(m.with_fn(f).fns, j),
{
    let s = m.program.symbols;
    let b = m.with_fn(f);
    let key = m.origin(f);
    let g = m.renumbered_fn(f);
    function_goes_on(s, g);
    if m.program.dedup.fns.contains_key(key) {
        goes_on_itself(s);
        entry_leads(m, b, f.id.0, m.program.dedup.fns[key]);
    } else {
        let counted = SymbolsV { next_fn: next_number(s.next_fn), ..s };
        let (t, id) = counted.with_function(g);
        assert(is_function(t, id)) by {
            declared_is_there(counted, g);
            if t.functions.len() == s.functions.len() {
                let k = fn_position(s.functions, id, 0);
                assert(still_there(s.functions[k], t.functions[k]));
            } else {
                assert(t.functions[s.functions.len() as int].id == id);
            }
        }
        refers_still(s, t, from);
        entry_leads(m, b, f.id.0, id.0);
        assert forall|k: (u32, u32, Seq<char>)| #[trigger]
            b.program.dedup.fns.contains_key(k) implies is_function(
            t,
            FnId(b.program.dedup.fns[k]),
        ) by {
            if k != key {
                assert(m.program.dedup.fns.contains_key(k));
                function_stays(s, t, FnId(m.program.dedup.fns[k]));
            }
        }
    }
}

proof fn goes_on_itself(s: SymbolsV)
    ensures
        goes_on(s, s),
{
}

proof fn with_fns_in_order(m: MergeV, fns: Seq<FnV>, n: int, from: int)
    requires
        in_order(m, from),
        n <= fns.len(),
    ensures
        in_order(m.with_fns(fns, n), from),
        m.with_fns(fns, n).program.symbols.variables == m.program.symbols.variables,
        forall|i: int| 0 <= i < n ==> has_key(m.with_fns(fns, n).fns, (#[trigger] fns[i]).id.0),
    decreases n,
{
    if n > 0 {
        with_fns_in_order(m, fns, n - 1, from);
        with_fn_in_order(m.with_fns(fns, n - 1), fns[n - 1], from);
    }
}

proof fn with_vars_in_order(m: MergeV, vars: Seq<VarV>, n: int, from: int)
    requires
        in_order(m, from),
    ensures
        in_order(m.with_vars(vars, n), from),
    decreases n,
{
    if n > 0 {
        with_vars_in_order(m, vars, n - 1, from);
        let a = m.with_vars(vars, n - 1);
        let b = m.with_vars(vars, n);
        let s = a.program.symbols;
        let t = b.program.symbols;
        assert(b == a.with_var(vars[n - 1]));
        vars_go_on(a, seq![vars[n - 1]], 1);
        assert(a.with_vars(seq![vars[n - 1]], 1) == b) by {
            reveal_with_fuel(MergeV::with_vars, 2);
        }
        refers_still(s, t, from);
        brought_still(a.program, b.program);
        numbers_still(a, b);
    }
}

proof fn with_owners_in_order(m: MergeV, from: int)
    requires
        in_order(m, from),
    ensures
        ({
            let all = m.program.symbols.variables.len() as int;
            in_order(m.with_owners(from, all), all)
        }),
{
    let all = m.program.symbols.variables.len() as int;
    let b = m.with_owners(from, all);
    let s = m.program.symbols;
    let t = b.program.symbols;
    owners_go_on(m, from, all);
    assert forall|i: int| 0 <= i < all implies var_refers(t, #[trigger] t.variables[i]) by {
        if i < from {
            assert(t.variables[i] == s.variables[i]);
            var_stays(s, t, s.variables[i]);
        } else {
            match s.variables[i].fn_id {
                Some(f) => {
                    known_is_there(m, f);
                    match m.known_fn(f) {
                        Some(g) => {
                            function_stays(s, t, g);
                        },
                        None => {},
                    }
                },
                None => {},
            }
        }
    }
    assert forall|k: int| 0 <= k < t.call_sites.len() implies site_refers(
        t,
        #[trigger] t.call_sites[k],
    ) by {
        site_stays(s, t, s.call_sites[k]);
    }
    brought_still(m.program, b.program);
    numbers_still(m, b);
}

proof fn fn_args_are_there(m: MergeV, args: Seq<(u32, FnId)>, n: int)
    requires
        numbers_lead(m),
    ensures
        forall|j: int|
            0 <= j < m.fn_args(args, n).len() ==> is_function(
                m.program.symbols,
                (#[trigger] m.fn_args(args, n)[j]).1,
            ),
    decreases n,
{
    if n > 0 {
        fn_args_are_there(m, args, n - 1);
        known_is_there(m, args[n - 1].1);
        let before = m.fn_args(args, n - 1);
        let after = m.fn_args(args, n);
        assert forall|j: int| 0 <= j < after.len() implies is_function(
            m.program.symbols,
            (#[trigger] after[j]).1,
        ) by {
            if j < before.len() {
                assert(after[j] == before[j]);
            }
        }
    }
}

proof fn with_site_in_order(m: MergeV, c: SiteV, from: int)
    requires
        in_order(m, from),
        has_key(m.fns, c.caller.0),
    ensures
        in_order(m.with_site(c), from),
        m.with_site(c).program.symbols.variables == m.program.symbols.variables,
        m.with_site(c).fns == m.fns,
{
    let b = m.with_site(c);
    let s = m.program.symbols;
    let t = b.program.symbols;
    let w = m.renumbered_site(c);
    known_is_there(m, c.caller);
    match c.callee_fn_id {
        Some(f) => {
            known_is_there(m, f);
        },
        None => {},
    }
    fn_args_are_there(m, c.fn_args, c.fn_args.len() as int);
    assert(site_refers(s, w)) by {
        assert forall|j: int| 0 <= j < w.fn_args.len() implies is_function(
            s,
            (#[trigger] w.fn_args[j]).1,
        ) by {
            assert(w.fn_args == m.fn_args(c.fn_args, c.fn_args.len() as int));
        }
    }
    sites_go_on(m, seq![c], 1);
    assert(m.with_sites(seq![c], 1) == b) by {
        reveal_with_fuel(MergeV::with_sites, 2);
    }
    assert forall|i: int| 0 <= i < from implies var_refers(t, #[trigger] t.variables[i]) by {
        var_stays(s, t, s.variables[i]);
    }
    assert forall|k: int| 0 <= k < t.call_sites.len() implies site_refers(
        t,
        #[trigger] t.call_sites[k],
    ) by {
        if k < s.call_sites.len() {
            assert(t.call_sites[k] == s.call_sites[k]);
            site_stays(s, t, s.call_sites[k]);
        } else {
            site_stays(s, t, w);
        }
    }
    brought_still(m.program, b.program);
    numbers_still(m, b);
}

proof fn with_sites_in_order(m: MergeV, sites: Seq<SiteV>, n: int, from: int)
    requires
        in_order(m, from),
        n <= sites.len(),
        forall|k: int| 0 <= k < sites.len() ==> has_key(m.fns, (#[trigger] sites[k]).caller.0),
    ensures
        in_order(m.with_sites(sites, n), from),
        m.with_sites(sites, n).fns == m.fns,
        m.with_sites(sites, n).program.symbols.variables == m.program.symbols.variables,
    decreases n,
{
    if n > 0 {
        with_sites_in_order(m, sites, n - 1, from);
        with_site_in_order(m.with_sites(sites, n - 1), sites[n - 1], from);
    }
}

proof fn paths_leave(s: SymbolsV, paths: Seq<Seq<char>>, n: int)
    ensures
        s.with_paths(paths, n).functions == s.functions,
        s.with_paths(paths, n).variables == s.variables,
        s.with_paths(paths, n).call_sites == s.call_sites,
    decreases n,
{
    if n > 0 {
        paths_leave(s, paths, n - 1);
    }
}

proof fn headers_leave(s: SymbolsV, tu: FileId, files: Seq<FileId>, n: int)
    ensures
        s.with_headers(tu, files, n).functions == s.functions,
        s.with_headers(tu, files, n).variables == s.variables,
        s.with_headers(tu, files, n).call_sites == s.call_sites,
    decreases n,
{
    if n > 0 {
        headers_leave(s, tu, files, n - 1);
    }
}

/// Symbols with the same functions, variables and call sites.
proof fn refers_same(a: SymbolsV, b: SymbolsV)
    requires
        refers(a),
        b.functions == a.functions,
        b.variables == a.variables,
        b.call_sites == a.call_sites,
    ensures
        refers(b),
        forall|f: FnId| is_function(a, f) ==> #[trigger] is_function(b, f),
{
    assert forall|f: FnId| is_function(a, f) implies #[trigger] is_function(b, f) by {
        let i = choose|i: int| 0 <= i < a.functions.len() && (#[trigger] a.functions[i]).id == f;
        assert(b.functions[i].id == f);
    }
    assert forall|i: int| 0 <= i < b.variables.len() implies var_refers(
        b,
        #[trigger] b.variables[i],
    ) by {
        assert(var_refers(a, a.variables[i]));
    }
    assert forall|k: int| 0 <= k < b.call_sites.len() implies site_refers(
        b,
        #[trigger] b.call_sites[k],
    ) by {
        assert(site_refers(a, a.call_sites[k]));
    }
}

/// Merging a source whose call sites are in its functions into a program keeps
/// it so that variables and call sites refer only to functions that are there.
pub proof fn merging_keeps_references(p: ProgramV, unit: UnitV)
    requires
        refers(p.symbols),
        brought_are_there(p),
        callers_are_there(unit),
    ensures
        refers(p.merged(unit).symbols),
        brought_are_there(p.merged(unit)),
{
    let s = p.symbols;
    let s1 = s.with_paths(unit.files, unit.files.len() as int);
    let files = s.files_of(unit.files, unit.files.len() as int);
    let s2 = s1.with_path(unit.path);
    let primary = s2.file_of(unit.path);
    let s3 = s2.with_headers(primary, files, files.len() as int);
    paths_leave(s, unit.files, unit.files.len() as int);
    headers_leave(s2, primary, files, files.len() as int);
    refers_same(s, s3);
    let m0 = p.merging(unit);
    assert(m0.program.symbols == s3);
    assert(brought_are_there(m0.program)) by {
        assert forall|key: (u32, u32, Seq<char>)| #[trigger]
            m0.program.dedup.fns.contains_key(key) implies is_function(
            s3,
            FnId(m0.program.dedup.fns[key]),
        ) by {
            assert(p.dedup.fns.contains_key(key));
        }
    }
    let from = s.variables.len() as int;
    assert(in_order(m0, from));
    let m1 = m0.with_vars(unit.variables, unit.variables.len() as int);
    with_vars_in_order(m0, unit.variables, unit.variables.len() as int, from);
    let m2 = m1.with_fns(unit.functions, unit.functions.len() as int);
    with_fns_in_order(m1, unit.functions, unit.functions.len() as int, from);
    let all = m2.program.symbols.variables.len() as int;
    let m3 = m2.with_owners(from, all);
    with_owners_in_order(m2, from);
    assert forall|k: int| 0 <= k < unit.call_sites.len() implies has_key(
        m3.fns,
        (#[trigger] unit.call_sites[k]).caller.0,
    ) by {
        let i = choose|i: int|
            0 <= i < unit.functions.len() && (#[trigger] unit.functions[i]).id
                == unit.call_sites[k].caller;
        assert(has_key(m2.fns, unit.functions[i].id.0));
    }
    with_sites_in_order(m3, unit.call_sites, unit.call_sites.len() as int, all);
}

proof fn merged_all_refer(p: ProgramV, units: Seq<UnitV>, n: int)
    requires
        refers(p.symbols),
        brought_are_there(p),
        n <= units.len(),
        forall|i: int| 0 <= i < units.len() ==> callers_are_there(#[trigger] units[i]),
    ensures
        refers(p.merged_all(units, n).symbols),
        brought_are_there(p.merged_all(units, n)),
    decreases n,
{
    if n > 0 {
        merged_all_refer(p, units, n - 1);
        merging_keeps_references(p.merged_all(units, n - 1), units[n - 1]);
    }
}

proof fn externs_refer(s: SymbolsV, uses: Seq<UseV>, n: int)
    requires
        refers(s),
    ensures
        refers(s.with_externs(uses, n)),
    decreases n,
{
    if n > 0 {
        externs_refer(s, uses, n - 1);
        let a = s.with_externs(uses, n - 1);
        let b = s.with_externs(uses, n);
        let u = uses[n - 1];
        if a.resolve(u.name) is None {
            let id = FnId(a.next_fn);
            externs_go_on(a, seq![u], 1);
            assert(a.with_externs(seq![u], 1) == b) by {
                reveal_with_fuel(SymbolsV::with_externs, 2);
            }
            assert(is_function(b, id)) by {
                assert(b.functions[a.functions.len() as int].id == id);
            }
            assert forall|i: int| 0 <= i < b.variables.len() implies var_refers(
                b,
                #[trigger] b.variables[i],
            ) by {
                var_stays(a, b, a.variables[i]);
            }
            assert forall|k: int| 0 <= k < b.call_sites.len() implies site_refers(
                b,
                #[trigger] b.call_sites[k],
            ) by {
                site_stays(a, b, a.call_sites[k]);
            }
        }
    }
}

/// In the program of a project variables and call sites refer only to functions
/// that are there.
pub proof fn programs_refer_to_their_functions(
    plan: PlanV,
    units: Seq<UnitV>,
    root: Seq<char>,
    files: Seq<Seq<char>>,
    o: OptionsV,
)
    requires
        is_plan_for(plan, root, files, o),
        are_units_of(units, plan),
    ensures
        refers(finished(plan, units).symbols),
{
    assert forall|i: int| 0 <= i < units.len() implies callers_are_there(#[trigger] units[i]) by {
        calls_are_in_functions(
            units[i],
            plan.root,
            plan.sources[i],
            canonical_of(plan.opts.cfg.tree, plan.sources[i]),
            file_result(plan.sources[i], plan.opts),
        );
    }
    let p = plan.program.merged_all(units, units.len() as int);
    merged_all_refer(plan.program, units, units.len() as int);
    let uses = uses_in(p.symbols.call_sites, p.symbols.call_sites.len() as int);
    externs_refer(p.symbols, uses, uses.len() as int);
}

/// In a program that sources have been merged into, the calls of each of which
/// are in functions of it, variables and call sites refer only to functions that
/// are there.
pub proof fn merged_programs_refer_to_their_functions(
    root: Seq<char>,
    units: Seq<UnitV>,
    n: int,
)
    requires
        n <= units.len(),
        forall|i: int| 0 <= i < units.len() ==> callers_are_there(#[trigger] units[i]),
    ensures
        refers(empty_program(root).merged_all(units, n).symbols),
{
    merged_all_refer(empty_program(root), units, n);
}

} // verus!
