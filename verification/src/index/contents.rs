//! What a program holds of call sites, flows and returns.

use crate::index::laws::{
    merged_programs_are_numbered, numbered, numbers_left, programs_are_numbered,
};
use crate::index::merge::{vars_of, vars_of_return, MergeV, UnitV};
use crate::index::project::{are_units_of, finished, is_plan_for, uses_in, PlanV, UseV};
use crate::ir::flow::{FlowV, ReturnV};
use crate::ir::ids::{FileId, FnId, VarId};
use crate::ir::program::{empty_program, with_entry_for, with_return, ProgramV};
use crate::ir::symbol::{FnV, SiteV, SymbolsV, VarV};
use crate::preproc::state::OptionsV;
use vstd::prelude::*;

verus! {

/// Where a call is, and what it calls by its name.
pub open spec fn site_key(c: SiteV) -> (u32, u32, u32, Seq<char>) {
    (c.span.file.0, c.span.line, c.span.col, c.callee_name)
}

/// Whether no two call sites are at one place under one name.
pub open spec fn sites_differ(sites: Seq<SiteV>) -> bool {
    forall|i: int, j: int|
        0 <= i < j < sites.len() ==> site_key(#[trigger] sites[i]) != site_key(#[trigger] sites[j])
}

/// Whether no two call sites are at one place under one name, and it is noted
/// where they come from.
pub open spec fn sites_noted(p: ProgramV) -> bool {
    &&& sites_differ(p.symbols.call_sites)
    &&& forall|k: int|
        0 <= k < p.symbols.call_sites.len() ==> p.dedup.sites.contains_key(
            site_key(#[trigger] p.symbols.call_sites[k]),
        )
}

/// Whether variables are among the first `n`.
pub open spec fn vars_among(vars: Seq<VarId>, n: nat) -> bool {
    forall|i: int| 0 <= i < vars.len() ==> (#[trigger] vars[i]).0 < n
}

/// Whether the variables of flows are among the first `n`.
pub open spec fn flows_among(flows: Seq<FlowV>, n: nat) -> bool {
    forall|i: int| 0 <= i < flows.len() ==> vars_among(vars_of(#[trigger] flows[i]), n)
}

/// Whether the variables of what a function returns are among the first `n`.
pub open spec fn returns_among(flows: Seq<ReturnV>, n: nat) -> bool {
    forall|i: int| 0 <= i < flows.len() ==> vars_among(vars_of_return(#[trigger] flows[i]), n)
}

/// Whether the variables of what functions return are among the first `n`.
pub open spec fn table_among(table: Seq<(u32, Seq<ReturnV>)>, n: nat) -> bool {
    forall|i: int| 0 <= i < table.len() ==> returns_among((#[trigger] table[i]).1, n)
}

/// Whether the variables of flows and returns are there.
pub open spec fn variables_there(p: ProgramV) -> bool {
    let n = p.symbols.variables.len();
    &&& p.symbols.next_var <= n
    &&& flows_among(p.flow, n)
    &&& table_among(p.fn_returns, n)
}

/// Whether the variables that a merge has numbers for are there.
spec fn numbers_there(m: MergeV) -> bool {
    &&& m.program.symbols.next_var <= m.program.symbols.variables.len()
    &&& forall|v: u32| #[trigger]
        m.vars.contains_key(v) ==> m.vars[v] < m.program.symbols.variables.len()
}

proof fn paths_leave(s: SymbolsV, paths: Seq<Seq<char>>, n: int)
    ensures
        s.with_paths(paths, n).variables == s.variables,
        s.with_paths(paths, n).next_var == s.next_var,
        s.with_paths(paths, n).call_sites == s.call_sites,
    decreases n,
{
    if n > 0 {
        paths_leave(s, paths, n - 1);
    }
}

proof fn headers_leave(s: SymbolsV, tu: FileId, files: Seq<FileId>, n: int)
    ensures
        s.with_headers(tu, files, n).variables == s.variables,
        s.with_headers(tu, files, n).next_var == s.next_var,
        s.with_headers(tu, files, n).call_sites == s.call_sites,
    decreases n,
{
    if n > 0 {
        headers_leave(s, tu, files, n - 1);
    }
}

pub proof fn merging_leaves(p: ProgramV, unit: UnitV)
    ensures
        ({
            let m = p.merging(unit);
            &&& m.program.symbols.variables == p.symbols.variables
            &&& m.program.symbols.next_var == p.symbols.next_var
            &&& m.program.symbols.call_sites == p.symbols.call_sites
            &&& m.program.dedup == p.dedup
            &&& m.program.flow == p.flow
            &&& m.program.fn_returns == p.fn_returns
        }),
{
    let s1 = p.symbols.with_paths(unit.files, unit.files.len() as int);
    let files = p.symbols.files_of(unit.files, unit.files.len() as int);
    let s2 = s1.with_path(unit.path);
    paths_leave(p.symbols, unit.files, unit.files.len() as int);
    headers_leave(s2, s2.file_of(unit.path), files, files.len() as int);
}

proof fn vars_there(m: MergeV, vars: Seq<VarV>, n: int)
    requires
        numbers_there(m),
    ensures
        numbers_there(m.with_vars(vars, n)),
        m.program.symbols.variables.len() <= m.with_vars(vars, n).program.symbols.variables.len(),
        m.with_vars(vars, n).program.symbols.call_sites == m.program.symbols.call_sites,
        m.with_vars(vars, n).program.dedup == m.program.dedup,
        m.with_vars(vars, n).program.flow == m.program.flow,
        m.with_vars(vars, n).program.fn_returns == m.program.fn_returns,
    decreases n,
{
    if n > 0 {
        vars_there(m, vars, n - 1);
        let a = m.with_vars(vars, n - 1);
        let b = m.with_vars(vars, n);
        assert(b == a.with_var(vars[n - 1]));
        assert forall|v: u32| #[trigger] b.vars.contains_key(v) implies b.vars[v]
            < b.program.symbols.variables.len() by {
            if v != vars[n - 1].id.0 {
                assert(a.vars.contains_key(v));
            }
        }
    }
}

pub proof fn fns_leave(m: MergeV, fns: Seq<FnV>, n: int)
    ensures
        ({
            let b = m.with_fns(fns, n);
            &&& b.vars == m.vars
            &&& b.program.symbols.variables == m.program.symbols.variables
            &&& b.program.symbols.next_var == m.program.symbols.next_var
            &&& b.program.symbols.call_sites == m.program.symbols.call_sites
            &&& b.program.dedup.sites == m.program.dedup.sites
            &&& b.program.flow == m.program.flow
            &&& b.program.fn_returns == m.program.fn_returns
        }),
    decreases n,
{
    if n > 0 {
        fns_leave(m, fns, n - 1);
    }
}

pub proof fn sites_leave(m: MergeV, sites: Seq<SiteV>, n: int)
    ensures
        ({
            let b = m.with_sites(sites, n);
            &&& b.vars == m.vars
            &&& b.program.symbols.variables == m.program.symbols.variables
            &&& b.program.symbols.next_var == m.program.symbols.next_var
            &&& b.program.flow == m.program.flow
            &&& b.program.fn_returns == m.program.fn_returns
        }),
    decreases n,
{
    if n > 0 {
        sites_leave(m, sites, n - 1);
    }
}

proof fn sites_stay_noted(m: MergeV, sites: Seq<SiteV>, n: int)
    requires
        sites_noted(m.program),
    ensures
        sites_noted(m.with_sites(sites, n).program),
    decreases n,
{
    if n > 0 {
        sites_stay_noted(m, sites, n - 1);
        let a = m.with_sites(sites, n - 1);
        let b = m.with_sites(sites, n);
        let s = a.program.symbols.call_sites;
        let t = b.program.symbols.call_sites;
        if t.len() > s.len() {
            let w = a.renumbered_site(sites[n - 1]);
            assert(t == s.push(w));
            assert forall|i: int, j: int| 0 <= i < j < t.len() implies site_key(#[trigger] t[i])
                != site_key(#[trigger] t[j]) by {
                assert(t[i] == s[i]);
                if j < s.len() {
                    assert(t[j] == s[j]);
                }
            }
            assert forall|k: int| 0 <= k < t.len() implies b.program.dedup.sites.contains_key(
                site_key(#[trigger] t[k]),
            ) by {
                if k < s.len() {
                    assert(t[k] == s[k]);
                }
            }
        }
    }
}

proof fn flow_vars_there(m: MergeV, flow: FlowV)
    requires
        numbers_there(m),
        m.knows(vars_of(flow)),
    ensures
        vars_among(vars_of(m.renumbered_flow(flow)), m.program.symbols.variables.len()),
{
    let vs = vars_of(flow);
    let ws = vars_of(m.renumbered_flow(flow));
    assert(vs.len() == 1 || vs.len() == 2);
    assert(m.vars.contains_key(vs[0].0));
    assert(ws[0] == m.var(vs[0]));
    if vs.len() == 2 {
        assert(m.vars.contains_key(vs[1].0));
        assert(ws[1] == m.var(vs[1]));
    }
}

proof fn flows_there(m: MergeV, flows: Seq<FlowV>, n: int)
    requires
        numbers_there(m),
        flows_among(m.program.flow, m.program.symbols.variables.len()),
    ensures
        flows_among(m.flows(flows, n), m.program.symbols.variables.len()),
    decreases n,
{
    if n > 0 {
        flows_there(m, flows, n - 1);
        let len = m.program.symbols.variables.len();
        let before = m.flows(flows, n - 1);
        let after = m.flows(flows, n);
        if m.knows(vars_of(flows[n - 1])) {
            flow_vars_there(m, flows[n - 1]);
        }
        assert forall|i: int| 0 <= i < after.len() implies vars_among(
            vars_of(#[trigger] after[i]),
            len,
        ) by {
            if i < before.len() {
                assert(after[i] == before[i]);
            }
        }
    }
}

proof fn entry_among(table: Seq<(u32, Seq<ReturnV>)>, f: u32, n: nat)
    requires
        table_among(table, n),
    ensures
        table_among(with_entry_for(table, f), n),
{
    let t = with_entry_for(table, f);
    assert forall|i: int| 0 <= i < t.len() implies returns_among((#[trigger] t[i]).1, n) by {
        if i < table.len() {
            assert(t[i] == table[i]);
        }
    }
}

proof fn return_among(table: Seq<(u32, Seq<ReturnV>)>, f: u32, flow: ReturnV, i: int, n: nat)
    requires
        table_among(table, n),
        vars_among(vars_of_return(flow), n),
    ensures
        table_among(with_return(table, f, flow, i), n),
    decreases table.len() - i,
{
    let t = with_return(table, f, flow, i);
    if i < 0 || i >= table.len() {
        assert forall|k: int| 0 <= k < t.len() implies returns_among((#[trigger] t[k]).1, n) by {
            if k < table.len() {
                assert(t[k] == table[k]);
            }
        }
    } else if table[i].0 == f {
        assert forall|k: int| 0 <= k < t.len() implies returns_among((#[trigger] t[k]).1, n) by {
            assert(returns_among(table[k].1, n));
            if k == i {
                let fs = t[k].1;
                assert forall|j: int| 0 <= j < fs.len() implies vars_among(
                    vars_of_return(#[trigger] fs[j]),
                    n,
                ) by {
                    if j < table[i].1.len() {
                        assert(fs[j] == table[i].1[j]);
                    }
                }
            }
        }
    } else {
        return_among(table, f, flow, i + 1, n);
    }
}

proof fn returned_among(
    m: MergeV,
    table: Seq<(u32, Seq<ReturnV>)>,
    f: u32,
    flows: Seq<ReturnV>,
    n: int,
)
    requires
        numbers_there(m),
        table_among(table, m.program.symbols.variables.len()),
    ensures
        table_among(m.with_returned(table, f, flows, n), m.program.symbols.variables.len()),
    decreases n,
{
    let len = m.program.symbols.variables.len();
    if n <= 0 {
        entry_among(table, f, len);
    } else {
        returned_among(m, table, f, flows, n - 1);
        let t = m.with_returned(table, f, flows, n - 1);
        let flow = flows[n - 1];
        if m.knows(vars_of_return(flow)) {
            let ws = vars_of_return(m.renumbered_return(flow));
            assert(vars_among(ws, len)) by {
                let vs = vars_of_return(flow);
                if vs.len() > 0 {
                    assert(m.vars.contains_key(vs[0].0));
                    assert(ws[0] == m.var(vs[0]));
                }
            }
            return_among(t, f, m.renumbered_return(flow), 0, len);
        }
    }
}

proof fn returns_there(m: MergeV, table: Seq<(u32, Seq<ReturnV>)>, n: int)
    requires
        numbers_there(m),
        table_among(m.program.fn_returns, m.program.symbols.variables.len()),
    ensures
        table_among(m.fn_returns(table, n), m.program.symbols.variables.len()),
    decreases n,
{
    if n > 0 {
        returns_there(m, table, n - 1);
        let t = m.fn_returns(table, n - 1);
        let (f, flows) = table[n - 1];
        if !m.dropped.contains(f) {
            match m.known_fn(FnId(f)) {
                Some(g) => {
                    returned_among(m, t, g.0, flows, flows.len() as int);
                },
                None => {},
            }
        }
    }
}

proof fn among_more(p: ProgramV, n: nat)
    requires
        variables_there(p),
        p.symbols.variables.len() <= n,
    ensures
        flows_among(p.flow, n),
        table_among(p.fn_returns, n),
{
    let len = p.symbols.variables.len();
    assert forall|i: int| 0 <= i < p.flow.len() implies vars_among(
        vars_of(#[trigger] p.flow[i]),
        n,
    ) by {
        assert(vars_among(vars_of(p.flow[i]), len));
    }
    assert forall|i: int| 0 <= i < p.fn_returns.len() implies returns_among(
        (#[trigger] p.fn_returns[i]).1,
        n,
    ) by {
        let fs = p.fn_returns[i].1;
        assert(returns_among(fs, len));
        assert forall|j: int| 0 <= j < fs.len() implies vars_among(
            vars_of_return(#[trigger] fs[j]),
            n,
        ) by {
            assert(vars_among(vars_of_return(fs[j]), len));
        }
    }
}

/// Merging a source into a program keeps it so that no two call sites are at
/// one place under one name, and that the variables of flows and returns are
/// there.
pub proof fn merging_keeps_contents(p: ProgramV, unit: UnitV)
    requires
        sites_noted(p),
        variables_there(p),
    ensures
        sites_noted(p.merged(unit)),
        variables_there(p.merged(unit)),
{
    let m0 = p.merging(unit);
    merging_leaves(p, unit);
    let m1 = m0.with_vars(unit.variables, unit.variables.len() as int);
    vars_there(m0, unit.variables, unit.variables.len() as int);
    let m2 = m1.with_fns(unit.functions, unit.functions.len() as int);
    fns_leave(m1, unit.functions, unit.functions.len() as int);
    let m3 = m2.with_owners(
        p.symbols.variables.len() as int,
        m2.program.symbols.variables.len() as int,
    );
    let m4 = m3.with_sites(unit.call_sites, unit.call_sites.len() as int);
    sites_leave(m3, unit.call_sites, unit.call_sites.len() as int);
    sites_stay_noted(m3, unit.call_sites, unit.call_sites.len() as int);
    let len = m4.program.symbols.variables.len();
    among_more(p, len);
    assert(numbers_there(m4));
    flows_there(m4, unit.flow, unit.flow.len() as int);
    returns_there(m4, unit.fn_returns, unit.fn_returns.len() as int);
}

proof fn merged_all_keep(p: ProgramV, units: Seq<UnitV>, n: int)
    requires
        sites_noted(p),
        variables_there(p),
    ensures
        sites_noted(p.merged_all(units, n)),
        variables_there(p.merged_all(units, n)),
    decreases n,
{
    if n > 0 {
        merged_all_keep(p, units, n - 1);
        merging_keeps_contents(p.merged_all(units, n - 1), units[n - 1]);
    }
}

proof fn externs_keep(s: SymbolsV, uses: Seq<UseV>, n: int)
    requires
        sites_differ(s.call_sites),
    ensures
        sites_differ(s.with_externs(uses, n).call_sites),
        s.with_externs(uses, n).variables == s.variables,
    decreases n,
{
    if n > 0 {
        externs_keep(s, uses, n - 1);
        let a = s.with_externs(uses, n - 1);
        let b = s.with_externs(uses, n);
        assert forall|i: int, j: int| 0 <= i < j < b.call_sites.len() implies site_key(
            #[trigger] b.call_sites[i],
        ) != site_key(#[trigger] b.call_sites[j]) by {
            assert(site_key(b.call_sites[i]) == site_key(a.call_sites[i]));
            assert(site_key(b.call_sites[j]) == site_key(a.call_sites[j]));
        }
    }
}

/// In the program of a project no two call sites are at one place under one
/// name, and the variables of flows and returns are there.
pub proof fn programs_hold_what_they_speak_of(
    plan: PlanV,
    units: Seq<UnitV>,
    root: Seq<char>,
    files: Seq<Seq<char>>,
    o: OptionsV,
)
    requires
        is_plan_for(plan, root, files, o),
        are_units_of(units, plan),
    ensures
        ({
            let p = finished(plan, units);
            let n = p.symbols.variables.len();
            &&& sites_differ(p.symbols.call_sites)
            &&& flows_among(p.flow, n)
            &&& table_among(p.fn_returns, n)
        }),
{
    let p = plan.program.merged_all(units, units.len() as int);
    merged_all_keep(plan.program, units, units.len() as int);
    let uses = uses_in(p.symbols.call_sites, p.symbols.call_sites.len() as int);
    externs_keep(p.symbols, uses, uses.len() as int);
}

/// While numbers last, a variable that a flow of a project speaks of is found
/// under its number.
pub proof fn variables_of_flows_are_found(
    plan: PlanV,
    units: Seq<UnitV>,
    root: Seq<char>,
    files: Seq<Seq<char>>,
    o: OptionsV,
    i: int,
    j: int,
)
    requires
        is_plan_for(plan, root, files, o),
        are_units_of(units, plan),
        numbers_left(finished(plan, units).symbols),
        0 <= i < finished(plan, units).flow.len(),
        0 <= j < vars_of(finished(plan, units).flow[i]).len(),
    ensures
        finished(plan, units).symbols.variable(vars_of(finished(plan, units).flow[i])[j]) is Some,
{
    programs_hold_what_they_speak_of(plan, units, root, files, o);
    programs_are_numbered(plan, units);
    let p = finished(plan, units);
    assert(vars_among(vars_of(p.flow[i]), p.symbols.variables.len()));
    let v = vars_of(p.flow[i])[j];
    assert(v.0 < p.symbols.variables.len());
    assert(numbered(p.symbols));
    assert(p.symbols.variables[v.0 as int].id.0 == v.0);
}

/// In a program that whatever sources have been merged into, no two call sites
/// are at one place under one name, and the variables of flows and returns are
/// there; while numbers last, each is found under its number.
pub proof fn merged_programs_hold_what_they_speak_of(
    root: Seq<char>,
    units: Seq<UnitV>,
    n: int,
)
    ensures
        ({
            let p = empty_program(root).merged_all(units, n);
            let len = p.symbols.variables.len();
            &&& sites_differ(p.symbols.call_sites)
            &&& flows_among(p.flow, len)
            &&& table_among(p.fn_returns, len)
            &&& numbers_left(p.symbols) ==> forall|v: VarId|
                v.0 < len ==> #[trigger] p.symbols.variable(v) is Some
        }),
{
    let p = empty_program(root).merged_all(units, n);
    merged_all_keep(empty_program(root), units, n);
    if numbers_left(p.symbols) {
        merged_programs_are_numbered(root, units, n);
        assert forall|v: VarId| v.0 < p.symbols.variables.len() implies #[trigger] p.symbols.variable(
            v,
        ) is Some by {
            assert(p.symbols.variables[v.0 as int].id.0 == v.0);
        }
    }
}

} // verus!
