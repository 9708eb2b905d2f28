//! What holds of programs that are put together from their sources.

use crate::index::merge::{MergeV, UnitV};
use crate::index::project::{finished, leads_nowhere, stand_in, uses_in, with_use, PlanV, UseV};
use crate::ir::ids::{FileId, FnId};
use crate::ir::lookup::{
    functions_come_under_their_names, no_symbols_are_well_named, well_named, well_named_same,
};
use crate::ir::program::{empty_program, ProgramV};
use crate::ir::symbol::{declared_is_there, next_number, FnV, SiteV, SymbolsV, VarV};
use crate::text::comes_before;
use vstd::prelude::*;

verus! {

/// Whether no two functions have one number, and variables and call sites are
/// at the positions that are their numbers.
pub open spec fn numbered(s: SymbolsV) -> bool {
    &&& s.variables.len() == s.next_var
    &&& forall|i: int| 0 <= i < s.variables.len() ==> (#[trigger] s.variables[i]).id.0 == i
    &&& s.call_sites.len() == s.next_call
    &&& forall|i: int| 0 <= i < s.call_sites.len() ==> (#[trigger] s.call_sites[i]).id.0 == i
    &&& forall|i: int| 0 <= i < s.functions.len() ==> (#[trigger] s.functions[i]).id.0 < s.next_fn
    &&& forall|i: int, j: int|
        0 <= i < j < s.functions.len() ==> (#[trigger] s.functions[i]).id != (
        #[trigger] s.functions[j]).id
}

/// Whether no kind of number has run out.
pub open spec fn numbers_left(s: SymbolsV) -> bool {
    s.next_fn < u32::MAX && s.next_var < u32::MAX && s.next_call < u32::MAX
}

/// Whether a function is still there: with its number, its name and its
/// linkage, and defined if it was.
pub open spec fn still_there(a: FnV, b: FnV) -> bool {
    &&& b.id == a.id
    &&& b.name == a.name
    &&& b.linkage == a.linkage
    &&& a.is_defined ==> b.is_defined
}

/// Whether one set of symbols comes out of another: numbers only go up, no
/// function is lost, and what was numbered is while numbers last.
pub open spec fn goes_on(a: SymbolsV, b: SymbolsV) -> bool {
    &&& a.next_fn <= b.next_fn
    &&& a.next_var <= b.next_var
    &&& a.next_call <= b.next_call
    &&& a.functions.len() <= b.functions.len()
    &&& forall|i: int|
        0 <= i < a.functions.len() ==> still_there(
            #[trigger] a.functions[i],
            b.functions[i],
        )
    &&& numbered(a) && numbers_left(b) ==> numbered(b)
}

proof fn goes_on_trans(a: SymbolsV, b: SymbolsV, c: SymbolsV)
    requires
        goes_on(a, b),
        goes_on(b, c),
    ensures
        goes_on(a, c),
{
    assert forall|i: int| 0 <= i < a.functions.len() implies still_there(
        #[trigger] a.functions[i],
        c.functions[i],
    ) by {
        assert(still_there(a.functions[i], b.functions[i]));
        assert(still_there(b.functions[i], c.functions[i]));
    }
}

/// Symbols with the same functions, variables and call sites.
proof fn goes_on_same(a: SymbolsV, b: SymbolsV)
    requires
        b.functions == a.functions,
        b.variables == a.variables,
        b.call_sites == a.call_sites,
        b.next_fn == a.next_fn,
        b.next_var == a.next_var,
        b.next_call == a.next_call,
    ensures
        goes_on(a, b),
{
}

proof fn paths_go_on(s: SymbolsV, paths: Seq<Seq<char>>, n: int)
    ensures
        goes_on(s, s.with_paths(paths, n)),
    decreases n,
{
    if n <= 0 {
        goes_on_same(s, s);
    } else {
        paths_go_on(s, paths, n - 1);
        let t = s.with_paths(paths, n - 1);
        goes_on_same(t, t.with_path(paths[n - 1]));
        goes_on_trans(s, t, t.with_path(paths[n - 1]));
    }
}

proof fn headers_go_on(s: SymbolsV, tu: FileId, files: Seq<FileId>, n: int)
    ensures
        goes_on(s, s.with_headers(tu, files, n)),
    decreases n,
{
    if n <= 0 {
        goes_on_same(s, s);
    } else {
        headers_go_on(s, tu, files, n - 1);
        let t = s.with_headers(tu, files, n - 1);
        goes_on_same(t, t.with_header(tu, files[n - 1]));
        goes_on_trans(s, t, t.with_header(tu, files[n - 1]));
    }
}

/// A function that comes with the next number.
pub proof fn function_goes_on(s: SymbolsV, f: FnV)
    requires
        f.id.0 == s.next_fn,
    ensures
        ({
            let counted = SymbolsV {
                next_fn: next_number(s.next_fn),
                ..s
            };
            goes_on(s, counted.with_function(f).0)
        }),
{
    let counted = SymbolsV { next_fn: next_number(s.next_fn), ..s };
    let b = counted.with_function(f).0;
    declared_is_there(counted, f);
    assert forall|i: int| 0 <= i < s.functions.len() implies still_there(
        #[trigger] s.functions[i],
        b.functions[i],
    ) by {}
    if numbered(s) && numbers_left(b) {
        if b.functions.len() == s.functions.len() {
            assert forall|i: int| 0 <= i < b.functions.len() implies (#[trigger] b.functions[i]).id
                == s.functions[i].id by {
                assert(still_there(s.functions[i], b.functions[i]));
            }
            assert(numbered(b));
        } else {
            assert(b.functions =~= s.functions.push(f));
            assert(numbered(b));
        }
    }
}

proof fn fns_go_on(m: MergeV, fns: Seq<FnV>, n: int)
    ensures
        goes_on(m.program.symbols, m.with_fns(fns, n).program.symbols),
    decreases n,
{
    let s = m.program.symbols;
    if n <= 0 {
        goes_on_same(s, s);
    } else {
        fns_go_on(m, fns, n - 1);
        let t = m.with_fns(fns, n - 1);
        let u = m.with_fns(fns, n);
        goes_on_same(t.program.symbols, t.program.symbols);
        function_goes_on(t.program.symbols, t.renumbered_fn(fns[n - 1]));
        goes_on_trans(s, t.program.symbols, u.program.symbols);
    }
}

pub proof fn vars_go_on(m: MergeV, vars: Seq<VarV>, n: int)
    ensures
        goes_on(m.program.symbols, m.with_vars(vars, n).program.symbols),
    decreases n,
{
    let s = m.program.symbols;
    if n <= 0 {
        goes_on_same(s, s);
    } else {
        vars_go_on(m, vars, n - 1);
        let t = m.with_vars(vars, n - 1).program.symbols;
        let u = m.with_vars(vars, n).program.symbols;
        assert(goes_on(t, u)) by {
            if numbered(t) && numbers_left(u) && u != t {
                assert(u.variables.len() == t.variables.len() + 1);
                assert forall|i: int| 0 <= i < u.variables.len() implies (
                #[trigger] u.variables[i]).id.0 == i by {
                    if i < t.variables.len() {
                        assert(u.variables[i] == t.variables[i]);
                    }
                }
            }
        }
        goes_on_trans(s, t, u);
    }
}

pub proof fn owners_go_on(m: MergeV, from: int, n: int)
    ensures
        goes_on(m.program.symbols, m.with_owners(from, n).program.symbols),
{
    let s = m.program.symbols;
    let t = m.with_owners(from, n).program.symbols;
    if numbered(s) {
        assert forall|i: int| 0 <= i < t.variables.len() implies (#[trigger] t.variables[i]).id.0
            == i by {
            assert(t.variables[i].id == s.variables[i].id);
        }
    }
}

pub proof fn sites_go_on(m: MergeV, sites: Seq<SiteV>, n: int)
    ensures
        goes_on(m.program.symbols, m.with_sites(sites, n).program.symbols),
    decreases n,
{
    let s = m.program.symbols;
    if n <= 0 {
        goes_on_same(s, s);
    } else {
        sites_go_on(m, sites, n - 1);
        let t = m.with_sites(sites, n - 1).program.symbols;
        let u = m.with_sites(sites, n).program.symbols;
        assert(goes_on(t, u)) by {
            if numbered(t) && numbers_left(u) && u != t {
                assert forall|i: int| 0 <= i < u.call_sites.len() implies (
                #[trigger] u.call_sites[i]).id.0 == i by {
                    if i < t.call_sites.len() {
                        assert(u.call_sites[i] == t.call_sites[i]);
                    }
                }
            }
        }
        goes_on_trans(s, t, u);
    }
}

/// Merging a source into a program keeps the program's functions, each with
/// its number, its name and its linkage, and defined if it was; and it keeps
/// numbers unique while they last.
pub proof fn merging_keeps_functions(p: ProgramV, unit: UnitV)
    ensures
        goes_on(p.symbols, p.merged(unit).symbols),
{
    let s = p.symbols;
    let s1 = s.with_paths(unit.files, unit.files.len() as int);
    let files = s.files_of(unit.files, unit.files.len() as int);
    let s2 = s1.with_path(unit.path);
    let primary = s2.file_of(unit.path);
    let s3 = s2.with_headers(primary, files, files.len() as int);
    paths_go_on(s, unit.files, unit.files.len() as int);
    goes_on_same(s1, s2);
    headers_go_on(s2, primary, files, files.len() as int);
    goes_on_trans(s, s1, s2);
    goes_on_trans(s, s2, s3);
    let m0 = p.merging(unit);
    let m1 = m0.with_vars(unit.variables, unit.variables.len() as int);
    vars_go_on(m0, unit.variables, unit.variables.len() as int);
    let m2 = m1.with_fns(unit.functions, unit.functions.len() as int);
    fns_go_on(m1, unit.functions, unit.functions.len() as int);
    let from = s.variables.len() as int;
    let m3 = m2.with_owners(from, m2.program.symbols.variables.len() as int);
    owners_go_on(m2, from, m2.program.symbols.variables.len() as int);
    let m4 = m3.with_sites(unit.call_sites, unit.call_sites.len() as int);
    sites_go_on(m3, unit.call_sites, unit.call_sites.len() as int);
    goes_on_trans(s, s3, m1.program.symbols);
    goes_on_trans(s, m1.program.symbols, m2.program.symbols);
    goes_on_trans(s, m2.program.symbols, m3.program.symbols);
    goes_on_trans(s, m3.program.symbols, m4.program.symbols);
}

pub proof fn externs_go_on(s: SymbolsV, uses: Seq<UseV>, n: int)
    ensures
        goes_on(s, s.with_externs(uses, n)),
    decreases n,
{
    if n <= 0 {
        goes_on_same(s, s);
    } else {
        externs_go_on(s, uses, n - 1);
        let t = s.with_externs(uses, n - 1);
        let u = t.with_extern(uses[n - 1]);
        goes_on_same(t, t);
        if t.resolve(uses[n - 1].name) is None {
            let f = stand_in(FnId(t.next_fn), uses[n - 1]);
            assert(u.functions =~= t.functions.push(f));
            assert(goes_on(t, u)) by {
                assert forall|i: int| 0 <= i < t.functions.len() implies still_there(
                    #[trigger] t.functions[i],
                    u.functions[i],
                ) by {}
                if numbered(t) && numbers_left(u) {
                    assert forall|i: int| 0 <= i < u.call_sites.len() implies (
                    #[trigger] u.call_sites[i]).id.0 == i by {
                        assert(t.call_sites[i].id.0 == i);
                    }
                    assert(numbered(u));
                }
            }
        }
        goes_on_trans(s, t, u);
    }
}

/// The functions that stand for what nothing declares leave what names mean
/// as it was.
pub proof fn stand_ins_have_no_name(
    s: SymbolsV,
    uses: Seq<UseV>,
    n: int,
    name: Seq<char>,
    file: Option<FileId>,
)
    ensures
        s.with_externs(uses, n).resolve(name) == s.resolve(name),
        s.with_externs(uses, n).resolve_in_scope(name, file) == s.resolve_in_scope(name, file),
        s.with_externs(uses, n).candidates(name, file) == s.candidates(name, file),
        s.with_externs(uses, n).fn_by_name == s.fn_by_name,
        s.with_externs(uses, n).externals == s.externals,
        s.with_externs(uses, n).scopes == s.scopes,
        s.with_externs(uses, n).headers == s.headers,
    decreases n,
{
    if n > 0 {
        stand_ins_have_no_name(s, uses, n - 1, name, file);
    }
    let t = s.with_externs(uses, n);
    match file {
        Some(f) => {
            same_in_headers(s, t, name, s.headers_of(f), 0);
            let own = match s.in_file(name, f) {
                Some(id) => seq![id],
                None => Seq::empty(),
            };
            same_header_candidates(s, t, own, name, s.headers_of(f), s.headers_of(f).len() as int);
        },
        None => {},
    }
}

proof fn same_in_headers(s: SymbolsV, t: SymbolsV, name: Seq<char>, headers: Seq<FileId>, i: int)
    requires
        t.scopes == s.scopes,
    ensures
        t.in_headers(name, headers, i) == s.in_headers(name, headers, i),
    decreases headers.len() - i,
{
    if 0 <= i < headers.len() {
        same_in_headers(s, t, name, headers, i + 1);
    }
}

proof fn same_header_candidates(
    s: SymbolsV,
    t: SymbolsV,
    out: Seq<FnId>,
    name: Seq<char>,
    headers: Seq<FileId>,
    n: int,
)
    requires
        t.scopes == s.scopes,
    ensures
        t.header_candidates(out, name, headers, n) == s.header_candidates(out, name, headers, n),
    decreases n,
{
    if n > 0 {
        same_header_candidates(s, t, out, name, headers, n - 1);
    }
}

/// Whether one of the first `n` uses is of a name.
pub open spec fn is_used(uses: Seq<UseV>, n: int, name: Seq<char>) -> bool {
    exists|k: int| 0 <= k < n && (#[trigger] uses[k]).name == name
}

proof fn use_is_there(uses: Seq<UseV>, u: UseV, i: int)
    requires
        0 <= i <= uses.len(),
    ensures
        with_use(uses, u, i).len() >= uses.len(),
        is_used(with_use(uses, u, i), with_use(uses, u, i).len() as int, u.name),
        forall|x: Seq<char>| #[trigger]
            is_used(uses, uses.len() as int, x) ==> is_used(
                with_use(uses, u, i),
                with_use(uses, u, i).len() as int,
                x,
            ),
    decreases uses.len() - i,
{
    let all = with_use(uses, u, i);
    if i >= uses.len() {
        assert(all[uses.len() as int].name == u.name);
        assert forall|x: Seq<char>| #[trigger] is_used(uses, uses.len() as int, x) implies is_used(
            all,
            all.len() as int,
            x,
        ) by {
            let k = choose|k: int| 0 <= k < uses.len() && (#[trigger] uses[k]).name == x;
            assert(all[k].name == x);
        }
    } else if uses[i].name == u.name {
        assert(all[i].name == u.name);
        assert forall|x: Seq<char>| #[trigger] is_used(uses, uses.len() as int, x) implies is_used(
            all,
            all.len() as int,
            x,
        ) by {
            let k = choose|k: int| 0 <= k < uses.len() && (#[trigger] uses[k]).name == x;
            assert(all[k].name == x);
        }
    } else if comes_before(u.name, uses[i].name, 0) {
        assert(all[i].name == u.name);
        assert forall|x: Seq<char>| #[trigger] is_used(uses, uses.len() as int, x) implies is_used(
            all,
            all.len() as int,
            x,
        ) by {
            let k = choose|k: int| 0 <= k < uses.len() && (#[trigger] uses[k]).name == x;
            if k < i {
                assert(all[k].name == x);
            } else {
                assert(all[k + 1].name == x);
            }
        }
    } else {
        use_is_there(uses, u, i + 1);
    }
}

proof fn uses_are_there(sites: Seq<SiteV>, n: int, i: int)
    requires
        0 <= i < n <= sites.len(),
        leads_nowhere(sites[i]),
    ensures
        is_used(uses_in(sites, n), uses_in(sites, n).len() as int, sites[i].callee_name),
    decreases n,
{
    let before = uses_in(sites, n - 1);
    if leads_nowhere(sites[n - 1]) {
        use_is_there(
            before,
            UseV {
                name: sites[n - 1].callee_name,
                file: sites[n - 1].span.file,
                line: sites[n - 1].span.line,
            },
            0,
        );
    }
    if i < n - 1 {
        uses_are_there(sites, n - 1, i);
        assert(is_used(before, before.len() as int, sites[i].callee_name));
    }
}

proof fn bound_so_far(s: SymbolsV, uses: Seq<UseV>, n: int, i: int)
    requires
        0 <= n <= uses.len(),
        0 <= i < s.call_sites.len(),
    ensures
        ({
            let t = s.with_externs(uses, n);
            &&& t.call_sites.len() == s.call_sites.len()
            &&& t.call_sites[i].callee_name == s.call_sites[i].callee_name
            &&& leads_nowhere(t.call_sites[i]) ==> leads_nowhere(s.call_sites[i])
            &&& leads_nowhere(t.call_sites[i]) && is_used(
                uses,
                n,
                s.call_sites[i].callee_name,
            ) ==> s.resolve(s.call_sites[i].callee_name) is Some
        }),
    decreases n,
{
    if n > 0 {
        bound_so_far(s, uses, n - 1, i);
        stand_ins_have_no_name(s, uses, n - 1, uses[n - 1].name, None);
        let t = s.with_externs(uses, n - 1);
        let u = s.with_externs(uses, n);
        let name = s.call_sites[i].callee_name;
        if leads_nowhere(u.call_sites[i]) {
            assert(leads_nowhere(t.call_sites[i]));
            if is_used(uses, n, name) {
                let k = choose|k: int| 0 <= k < n && (#[trigger] uses[k]).name == name;
                if k < n - 1 {
                    assert(is_used(uses, n - 1, name));
                }
            }
        }
    }
}

/// In a program that is done, a call by a plain name that is not a call of a
/// function has a name that some external function has.
pub proof fn plain_calls_lead_somewhere(p: ProgramV, i: int)
    requires
        0 <= i < p.symbols.call_sites.len(),
        leads_nowhere(p.with_extern_callees().symbols.call_sites[i]),
    ensures
        p.symbols.resolve(p.symbols.call_sites[i].callee_name) is Some,
{
    let sites = p.symbols.call_sites;
    let uses = uses_in(sites, sites.len() as int);
    bound_so_far(p.symbols, uses, uses.len() as int, i);
    uses_are_there(sites, sites.len() as int, i);
}

pub proof fn merged_all_go_on(p: ProgramV, units: Seq<UnitV>, n: int)
    ensures
        goes_on(p.symbols, p.merged_all(units, n).symbols),
    decreases n,
{
    if n <= 0 {
        goes_on_same(p.symbols, p.symbols);
    } else {
        merged_all_go_on(p, units, n - 1);
        let q = p.merged_all(units, n - 1);
        merging_keeps_functions(q, units[n - 1]);
        goes_on_trans(p.symbols, q.symbols, q.merged(units[n - 1]).symbols);
    }
}

/// In a program that has been put together from its sources, no two functions
/// have one number, and every variable and call site is at the position that
/// is its number, unless numbers ran out.
pub proof fn programs_are_numbered(plan: PlanV, units: Seq<UnitV>)
    requires
        plan.program.symbols == empty_program(plan.root).symbols,
        numbers_left(finished(plan, units).symbols),
    ensures
        numbered(finished(plan, units).symbols),
{
    let p = plan.program.merged_all(units, units.len() as int);
    merged_all_go_on(plan.program, units, units.len() as int);
    let uses = uses_in(p.symbols.call_sites, p.symbols.call_sites.len() as int);
    externs_go_on(p.symbols, uses, uses.len() as int);
    goes_on_trans(plan.program.symbols, p.symbols, finished(plan, units).symbols);
    assert(numbered(plan.program.symbols));
}

/// A function that one source has brought is in the program that all sources
/// make, under its number, and defined if it was.
pub proof fn functions_outlive_merging(p: ProgramV, units: Seq<UnitV>, n: int, i: int)
    requires
        0 <= i < p.symbols.functions.len(),
    ensures
        i < p.merged_all(units, n).symbols.functions.len(),
        still_there(p.symbols.functions[i], p.merged_all(units, n).symbols.functions[i]),
{
    merged_all_go_on(p, units, n);
}

proof fn fns_are_named(m: MergeV, fns: Seq<FnV>, n: int)
    requires
        well_named(m.program.symbols),
        numbered(m.program.symbols),
        numbers_left(m.with_fns(fns, n).program.symbols),
    ensures
        well_named(m.with_fns(fns, n).program.symbols),
    decreases n,
{
    if n > 0 {
        let t = m.with_fns(fns, n - 1);
        let u = m.with_fns(fns, n);
        let f = t.renumbered_fn(fns[n - 1]);
        fns_go_on(m, fns, n - 1);
        goes_on_same(t.program.symbols, t.program.symbols);
        function_goes_on(t.program.symbols, f);
        assert(goes_on(t.program.symbols, u.program.symbols));
        fns_are_named(m, fns, n - 1);
        let counted = SymbolsV {
            next_fn: next_number(t.program.symbols.next_fn),
            ..t.program.symbols
        };
        well_named_same(t.program.symbols, counted);
        functions_come_under_their_names(counted, f);
    }
}

proof fn vars_are_not_named(m: MergeV, vars: Seq<VarV>, n: int)
    ensures
        same_names(m.program.symbols, m.with_vars(vars, n).program.symbols),
    decreases n,
{
    if n > 0 {
        vars_are_not_named(m, vars, n - 1);
    }
}

proof fn sites_are_not_named(m: MergeV, sites: Seq<SiteV>, n: int)
    ensures
        same_names(m.program.symbols, m.with_sites(sites, n).program.symbols),
    decreases n,
{
    if n > 0 {
        sites_are_not_named(m, sites, n - 1);
    }
}

proof fn paths_are_not_named(s: SymbolsV, paths: Seq<Seq<char>>, n: int)
    ensures
        same_names(s, s.with_paths(paths, n)),
    decreases n,
{
    if n > 0 {
        paths_are_not_named(s, paths, n - 1);
    }
}

proof fn headers_are_not_named(s: SymbolsV, tu: FileId, files: Seq<FileId>, n: int)
    ensures
        same_names(s, s.with_headers(tu, files, n)),
    decreases n,
{
    if n > 0 {
        headers_are_not_named(s, tu, files, n - 1);
    }
}

/// Whether symbols have the same functions, under the same names.
spec fn same_names(a: SymbolsV, b: SymbolsV) -> bool {
    &&& b.functions == a.functions
    &&& b.fn_by_name == a.fn_by_name
    &&& b.externals == a.externals
    &&& b.scopes == a.scopes
}

/// Merging a source into a program keeps it so that names lead to functions of
/// those names, while numbers last.
pub proof fn merging_keeps_names(p: ProgramV, unit: UnitV)
    requires
        well_named(p.symbols),
        numbered(p.symbols),
        numbers_left(p.merged(unit).symbols),
    ensures
        well_named(p.merged(unit).symbols),
{
    let s = p.symbols;
    let s1 = s.with_paths(unit.files, unit.files.len() as int);
    let files = s.files_of(unit.files, unit.files.len() as int);
    let s2 = s1.with_path(unit.path);
    let primary = s2.file_of(unit.path);
    let s3 = s2.with_headers(primary, files, files.len() as int);
    paths_are_not_named(s, unit.files, unit.files.len() as int);
    headers_are_not_named(s2, primary, files, files.len() as int);
    paths_go_on(s, unit.files, unit.files.len() as int);
    goes_on_same(s1, s2);
    headers_go_on(s2, primary, files, files.len() as int);
    goes_on_trans(s, s1, s2);
    goes_on_trans(s, s2, s3);
    let m0 = p.merging(unit);
    let m1 = m0.with_vars(unit.variables, unit.variables.len() as int);
    vars_are_not_named(m0, unit.variables, unit.variables.len() as int);
    vars_go_on(m0, unit.variables, unit.variables.len() as int);
    let m2 = m1.with_fns(unit.functions, unit.functions.len() as int);
    let from = s.variables.len() as int;
    let m3 = m2.with_owners(from, m2.program.symbols.variables.len() as int);
    let m4 = m3.with_sites(unit.call_sites, unit.call_sites.len() as int);
    sites_are_not_named(m3, unit.call_sites, unit.call_sites.len() as int);
    fns_go_on(m1, unit.functions, unit.functions.len() as int);
    owners_go_on(m2, from, m2.program.symbols.variables.len() as int);
    sites_go_on(m3, unit.call_sites, unit.call_sites.len() as int);
    well_named_same(s, m1.program.symbols);
    goes_on_trans(s, s3, m1.program.symbols);
    fns_are_named(m1, unit.functions, unit.functions.len() as int);
    well_named_same(m2.program.symbols, m4.program.symbols);
}

proof fn merged_all_are_named(p: ProgramV, units: Seq<UnitV>, n: int)
    requires
        well_named(p.symbols),
        numbered(p.symbols),
        numbers_left(p.merged_all(units, n).symbols),
    ensures
        well_named(p.merged_all(units, n).symbols),
    decreases n,
{
    if n > 0 {
        let q = p.merged_all(units, n - 1);
        merged_all_go_on(p, units, n - 1);
        merging_keeps_functions(q, units[n - 1]);
        merged_all_are_named(p, units, n - 1);
        merging_keeps_names(q, units[n - 1]);
    }
}

/// In a program that whatever sources have been merged into, no two functions
/// have one number, every variable and call site is at the position that is its
/// number, and names lead to functions of those names, unless numbers ran out.
pub proof fn merged_programs_are_numbered(root: Seq<char>, units: Seq<UnitV>, n: int)
    requires
        numbers_left(empty_program(root).merged_all(units, n).symbols),
    ensures
        numbered(empty_program(root).merged_all(units, n).symbols),
        well_named(empty_program(root).merged_all(units, n).symbols),
{
    let p = empty_program(root);
    no_symbols_are_well_named();
    merged_all_go_on(p, units, n);
    assert(numbered(p.symbols));
    merged_all_are_named(p, units, n);
}

/// In the program of a project names lead to functions of those names, unless
/// numbers ran out.
pub proof fn programs_are_well_named(plan: PlanV, units: Seq<UnitV>)
    requires
        plan.program.symbols == empty_program(plan.root).symbols,
        numbers_left(finished(plan, units).symbols),
    ensures
        well_named(finished(plan, units).symbols),
{
    let p = plan.program.merged_all(units, units.len() as int);
    let uses = uses_in(p.symbols.call_sites, p.symbols.call_sites.len() as int);
    no_symbols_are_well_named();
    assert(numbered(plan.program.symbols));
    externs_go_on(p.symbols, uses, uses.len() as int);
    merged_all_are_named(plan.program, units, units.len() as int);
    let b = finished(plan, units).symbols;
    externs_come_last(p.symbols, uses, uses.len() as int);
    stand_ins_have_no_name(p.symbols, uses, uses.len() as int, Seq::empty(), None);
    well_named_same(p.symbols, b);
}

proof fn externs_come_last(s: SymbolsV, uses: Seq<UseV>, n: int)
    ensures
        s.functions.len() <= s.with_externs(uses, n).functions.len(),
        forall|i: int|
            0 <= i < s.functions.len() ==> #[trigger] s.with_externs(uses, n).functions[i]
                == s.functions[i],
    decreases n,
{
    if n > 0 {
        externs_come_last(s, uses, n - 1);
    }
}

} // verus!
