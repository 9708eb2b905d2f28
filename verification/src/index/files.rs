//! What the symbols of a program say of files.

use crate::index::merge::{MergeV, UnitV};
use crate::index::project::{are_units_of, finished, is_plan_for, uses_in, with_use, PlanV, UseV};
use crate::ir::ids::FileId;
use crate::ir::program::ProgramV;
use crate::ir::symbol::{declared_is_there, next_number, FnV, SiteV, SymbolsV, VarV};
use crate::preproc::state::OptionsV;
use crate::text::comes_before;
use vstd::prelude::*;

verus! {

/// Whether a function says that it is in files that are there.
pub open spec fn fn_filed(f: FnV, files: nat) -> bool {
    f.file.0 < files && f.span.file.0 < files
}

/// Whether every file has its number, and the files that symbols say they are
/// in, and those that paths lead to, are there.
pub open spec fn filed(s: SymbolsV) -> bool {
    let n = s.files.len();
    &&& forall|i: int| 0 <= i < n && i <= u32::MAX ==> (#[trigger] s.files[i]).0.0 == i
    &&& forall|path: Seq<char>| #[trigger] s.paths.contains_key(path) ==> s.paths[path] < n
    &&& forall|i: int| 0 <= i < s.functions.len() ==> fn_filed(#[trigger] s.functions[i], n)
    &&& forall|i: int| 0 <= i < s.variables.len() ==> (#[trigger] s.variables[i]).span.file.0 < n
    &&& forall|k: int|
        0 <= k < s.call_sites.len() ==> (#[trigger] s.call_sites[k]).span.file.0 < n
}

proof fn with_path_filed(s: SymbolsV, path: Seq<char>)
    requires
        filed(s),
    ensures
        filed(s.with_path(path)),
        s.files.len() <= s.with_path(path).files.len(),
        s.with_path(path).knows_path(path),
        s.with_path(path).file_of(path).0 < s.with_path(path).files.len(),
{
    let t = s.with_path(path);
    assert forall|i: int| 0 <= i < t.files.len() && i <= u32::MAX implies (
    #[trigger] t.files[i]).0.0 == i by {
        if i < s.files.len() {
            assert(t.files[i] == s.files[i]);
        }
    }
    assert forall|i: int| 0 <= i < t.functions.len() implies fn_filed(
        #[trigger] t.functions[i],
        t.files.len(),
    ) by {
        assert(fn_filed(s.functions[i], s.files.len()));
    }
}

proof fn with_paths_filed(s: SymbolsV, paths: Seq<Seq<char>>, n: int)
    requires
        filed(s),
        n <= paths.len(),
    ensures
        filed(s.with_paths(paths, n)),
        s.files.len() <= s.with_paths(paths, n).files.len(),
        forall|i: int|
            0 <= i < s.files_of(paths, n).len() ==> (#[trigger] s.files_of(paths, n)[i]).0
                < s.with_paths(paths, n).files.len(),
    decreases n,
{
    if n > 0 {
        with_paths_filed(s, paths, n - 1);
        with_path_filed(s.with_paths(paths, n - 1), paths[n - 1]);
        let before = s.files_of(paths, n - 1);
        let after = s.files_of(paths, n);
        assert forall|i: int| 0 <= i < after.len() implies (#[trigger] after[i]).0 < s.with_paths(
            paths,
            n,
        ).files.len() by {
            if i < before.len() {
                assert(after[i] == before[i]);
            }
        }
    }
}

/// Symbols with the same files, functions, variables and call sites.
proof fn filed_same(a: SymbolsV, b: SymbolsV)
    requires
        filed(a),
        b.files == a.files,
        b.paths == a.paths,
        b.functions == a.functions,
        b.variables == a.variables,
        b.call_sites == a.call_sites,
    ensures
        filed(b),
{
}

proof fn with_headers_filed(s: SymbolsV, tu: FileId, files: Seq<FileId>, n: int)
    requires
        filed(s),
    ensures
        filed(s.with_headers(tu, files, n)),
        s.with_headers(tu, files, n).files == s.files,
    decreases n,
{
    if n > 0 {
        with_headers_filed(s, tu, files, n - 1);
        filed_same(s.with_headers(tu, files, n - 1), s.with_headers(tu, files, n));
    }
}

/// Whether the files that a merge has numbers for are there.
spec fn merge_filed(m: MergeV) -> bool {
    &&& filed(m.program.symbols)
    &&& m.primary.0 < m.program.symbols.files.len()
    &&& forall|i: int|
        0 <= i < m.files.len() ==> (#[trigger] m.files[i]).0 < m.program.symbols.files.len()
}

/// A merge that has gone on without a new file.
spec fn same_files(a: MergeV, b: MergeV) -> bool {
    &&& b.files == a.files
    &&& b.primary == a.primary
    &&& b.program.symbols.files == a.program.symbols.files
    &&& b.program.symbols.paths == a.program.symbols.paths
}

proof fn with_fn_filed(m: MergeV, f: FnV)
    requires
        merge_filed(m),
    ensures
        merge_filed(m.with_fn(f)),
        same_files(m, m.with_fn(f)),
{
    let s = m.program.symbols;
    let g = m.renumbered_fn(f);
    let b = m.with_fn(f);
    let t = b.program.symbols;
    let n = s.files.len();
    assert(fn_filed(g, n)) by {
        assert(m.file(f.span.file).0 < n);
    }
    let counted = SymbolsV { next_fn: next_number(s.next_fn), ..s };
    declared_is_there(counted, g);
    assert forall|i: int| 0 <= i < t.functions.len() implies fn_filed(
        #[trigger] t.functions[i],
        n,
    ) by {
        if i < s.functions.len() {
            assert(fn_filed(s.functions[i], n));
        }
    }
}

proof fn with_fns_filed(m: MergeV, fns: Seq<FnV>, n: int)
    requires
        merge_filed(m),
    ensures
        merge_filed(m.with_fns(fns, n)),
        same_files(m, m.with_fns(fns, n)),
    decreases n,
{
    if n > 0 {
        with_fns_filed(m, fns, n - 1);
        with_fn_filed(m.with_fns(fns, n - 1), fns[n - 1]);
    }
}

proof fn with_vars_filed(m: MergeV, vars: Seq<VarV>, n: int)
    requires
        merge_filed(m),
    ensures
        merge_filed(m.with_vars(vars, n)),
        same_files(m, m.with_vars(vars, n)),
    decreases n,
{
    if n > 0 {
        with_vars_filed(m, vars, n - 1);
        let a = m.with_vars(vars, n - 1);
        let s = a.program.symbols;
        let t = m.with_vars(vars, n).program.symbols;
        assert(a.file(vars[n - 1].span.file).0 < s.files.len());
        assert forall|i: int| 0 <= i < t.variables.len() implies (
        #[trigger] t.variables[i]).span.file.0 < t.files.len() by {
            if i < s.variables.len() {
                assert(t.variables[i] == s.variables[i]);
            }
        }
    }
}

proof fn with_owners_filed(m: MergeV, from: int, n: int)
    requires
        merge_filed(m),
    ensures
        merge_filed(m.with_owners(from, n)),
        same_files(m, m.with_owners(from, n)),
{
    let s = m.program.symbols;
    let t = m.with_owners(from, n).program.symbols;
    assert forall|i: int| 0 <= i < t.variables.len() implies (
    #[trigger] t.variables[i]).span.file.0 < t.files.len() by {
        assert(t.variables[i].span == s.variables[i].span);
    }
}

proof fn with_sites_filed(m: MergeV, sites: Seq<SiteV>, n: int)
    requires
        merge_filed(m),
    ensures
        merge_filed(m.with_sites(sites, n)),
        same_files(m, m.with_sites(sites, n)),
    decreases n,
{
    if n > 0 {
        with_sites_filed(m, sites, n - 1);
        let a = m.with_sites(sites, n - 1);
        let s = a.program.symbols;
        let t = m.with_sites(sites, n).program.symbols;
        assert(a.file(sites[n - 1].span.file).0 < s.files.len());
        assert forall|k: int| 0 <= k < t.call_sites.len() implies (
        #[trigger] t.call_sites[k]).span.file.0 < t.files.len() by {
            if k < s.call_sites.len() {
                assert(t.call_sites[k] == s.call_sites[k]);
            }
        }
    }
}

/// Merging a source into a program keeps it so that symbols say only of files
/// that are there that they are in them.
pub proof fn merging_keeps_files(p: ProgramV, unit: UnitV)
    requires
        filed(p.symbols),
    ensures
        filed(p.merged(unit).symbols),
{
    let s = p.symbols;
    let s1 = s.with_paths(unit.files, unit.files.len() as int);
    let files = s.files_of(unit.files, unit.files.len() as int);
    let s2 = s1.with_path(unit.path);
    let primary = s2.file_of(unit.path);
    with_paths_filed(s, unit.files, unit.files.len() as int);
    with_path_filed(s1, unit.path);
    with_headers_filed(s2, primary, files, files.len() as int);
    let m0 = p.merging(unit);
    let m1 = m0.with_vars(unit.variables, unit.variables.len() as int);
    with_vars_filed(m0, unit.variables, unit.variables.len() as int);
    let m2 = m1.with_fns(unit.functions, unit.functions.len() as int);
    with_fns_filed(m1, unit.functions, unit.functions.len() as int);
    let all = m2.program.symbols.variables.len() as int;
    let m3 = m2.with_owners(s.variables.len() as int, all);
    with_owners_filed(m2, s.variables.len() as int, all);
    with_sites_filed(m3, unit.call_sites, unit.call_sites.len() as int);
}

proof fn merged_all_filed(p: ProgramV, units: Seq<UnitV>, n: int)
    requires
        filed(p.symbols),
    ensures
        filed(p.merged_all(units, n).symbols),
    decreases n,
{
    if n > 0 {
        merged_all_filed(p, units, n - 1);
        merging_keeps_files(p.merged_all(units, n - 1), units[n - 1]);
    }
}

spec fn uses_filed(uses: Seq<UseV>, files: nat) -> bool {
    forall|i: int| 0 <= i < uses.len() ==> (#[trigger] uses[i]).file.0 < files
}

proof fn with_use_filed(uses: Seq<UseV>, u: UseV, i: int, files: nat)
    requires
        uses_filed(uses, files),
        u.file.0 < files,
    ensures
        uses_filed(with_use(uses, u, i), files),
    decreases uses.len() - i,
{
    if i < 0 || i >= uses.len() {
    } else if uses[i].name == u.name {
    } else if comes_before(u.name, uses[i].name, 0) {
        let t = uses.insert(i, u);
        assert forall|j: int| 0 <= j < t.len() implies (#[trigger] t[j]).file.0 < files by {
            if j < i {
                assert(t[j] == uses[j]);
            } else if j > i {
                assert(t[j] == uses[j - 1]);
            }
        }
    } else {
        with_use_filed(uses, u, i + 1, files);
    }
}

proof fn uses_in_filed(sites: Seq<SiteV>, n: int, files: nat)
    requires
        n <= sites.len(),
        forall|k: int| 0 <= k < sites.len() ==> (#[trigger] sites[k]).span.file.0 < files,
    ensures
        uses_filed(uses_in(sites, n), files),
    decreases n,
{
    if n > 0 {
        uses_in_filed(sites, n - 1, files);
        with_use_filed(
            uses_in(sites, n - 1),
            UseV {
                name: sites[n - 1].callee_name,
                file: sites[n - 1].span.file,
                line: sites[n - 1].span.line,
            },
            0,
            files,
        );
    }
}

proof fn externs_filed(s: SymbolsV, uses: Seq<UseV>, n: int)
    requires
        filed(s),
        uses_filed(uses, s.files.len()),
        n <= uses.len(),
    ensures
        filed(s.with_externs(uses, n)),
        s.with_externs(uses, n).files == s.files,
    decreases n,
{
    if n > 0 {
        externs_filed(s, uses, n - 1);
        let a = s.with_externs(uses, n - 1);
        let b = s.with_externs(uses, n);
        let u = uses[n - 1];
        if a.resolve(u.name) is None {
            assert forall|i: int| 0 <= i < b.functions.len() implies fn_filed(
                #[trigger] b.functions[i],
                b.files.len(),
            ) by {
                if i < a.functions.len() {
                    assert(b.functions[i] == a.functions[i]);
                }
            }
            assert forall|k: int| 0 <= k < b.call_sites.len() implies (
            #[trigger] b.call_sites[k]).span.file.0 < b.files.len() by {
                assert(a.call_sites[k].span.file.0 < a.files.len());
            }
        }
    }
}

/// In the program of a project functions, variables and call sites are in files
/// that are there.
pub proof fn programs_know_their_files(
    plan: PlanV,
    units: Seq<UnitV>,
    root: Seq<char>,
    files: Seq<Seq<char>>,
    o: OptionsV,
)
    requires
        is_plan_for(plan, root, files, o),
        are_units_of(units, plan),
    ensures
        filed(finished(plan, units).symbols),
{
    let p = plan.program.merged_all(units, units.len() as int);
    merged_all_filed(plan.program, units, units.len() as int);
    let sites = p.symbols.call_sites;
    uses_in_filed(sites, sites.len() as int, p.symbols.files.len());
    let uses = uses_in(sites, sites.len() as int);
    externs_filed(p.symbols, uses, uses.len() as int);
}

} // verus!
