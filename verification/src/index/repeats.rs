//! What merging a source a second time does.

use crate::index::merge::{with_edges, MergeV, UnitV};
use crate::ir::ids::FileId;
use crate::ir::program::ProgramV;
use crate::ir::symbol::{FnV, SiteV, SymbolsV, VarV};
use vstd::prelude::*;

verus! {

proof fn edges_are_noted(
    edges: Seq<(Seq<char>, Seq<char>)>,
    more: Seq<(Seq<char>, Seq<char>)>,
    n: int,
)
    requires
        n <= more.len(),
    ensures
        forall|e: (Seq<char>, Seq<char>)| #[trigger]
            edges.contains(e) ==> with_edges(edges, more, n).contains(e),
        forall|k: int|
            0 <= k < n ==> (#[trigger] more[k]).0.len() == 0 || more[k].1.len() == 0 || with_edges(
                edges,
                more,
                n,
            ).contains(more[k]),
    decreases n,
{
    if n > 0 {
        edges_are_noted(edges, more, n - 1);
        let before = with_edges(edges, more, n - 1);
        let after = with_edges(edges, more, n);
        let e = more[n - 1];
        assert forall|x: (Seq<char>, Seq<char>)| #[trigger] before.contains(
            x,
        ) implies after.contains(x) by {
            let i = choose|i: int| 0 <= i < before.len() && before[i] == x;
            assert(after[i] == x);
        }
        if e.0.len() > 0 && e.1.len() > 0 && !before.contains((e.0, e.1)) {
            assert(after[before.len() as int] == (e.0, e.1));
        }
    }
}

proof fn edges_stay(
    edges: Seq<(Seq<char>, Seq<char>)>,
    more: Seq<(Seq<char>, Seq<char>)>,
    n: int,
)
    requires
        n <= more.len(),
        forall|k: int|
            0 <= k < n ==> (#[trigger] more[k]).0.len() == 0 || more[k].1.len() == 0
                || edges.contains(more[k]),
    ensures
        with_edges(edges, more, n) == edges,
    decreases n,
{
    if n > 0 {
        edges_stay(edges, more, n - 1);
        assert(more[n - 1] == (more[n - 1].0, more[n - 1].1));
    }
}

/// Whether paths that lead to files lead there still.
spec fn paths_kept(a: SymbolsV, b: SymbolsV) -> bool {
    forall|path: Seq<char>| #[trigger]
        a.paths.contains_key(path) ==> b.paths.contains_key(path) && b.paths[path] == a.paths[path]
}

proof fn paths_are_noted(s: SymbolsV, paths: Seq<Seq<char>>, n: int)
    requires
        n <= paths.len(),
    ensures
        paths_kept(s, s.with_paths(paths, n)),
        s.files_of(paths, n).len() == (if n > 0 {
            n
        } else {
            0
        }),
        forall|k: int|
            0 <= k < n ==> s.with_paths(paths, n).knows_path(#[trigger] paths[k])
                && s.files_of(paths, n)[k] == s.with_paths(paths, n).file_of(paths[k]),
    decreases n,
{
    if n > 0 {
        paths_are_noted(s, paths, n - 1);
        let t = s.with_paths(paths, n - 1);
        let u = s.with_paths(paths, n);
        assert(paths_kept(t, u));
        assert forall|k: int| 0 <= k < n implies u.knows_path(#[trigger] paths[k])
            && s.files_of(paths, n)[k] == u.file_of(paths[k]) by {
            if k < n - 1 {
                assert(t.knows_path(paths[k]));
            }
        }
    }
}

proof fn paths_stay(s: SymbolsV, paths: Seq<Seq<char>>, n: int)
    requires
        n <= paths.len(),
        forall|k: int| 0 <= k < n ==> s.knows_path(#[trigger] paths[k]),
    ensures
        s.with_paths(paths, n) == s,
        s.files_of(paths, n).len() == (if n > 0 {
            n
        } else {
            0
        }),
        forall|k: int|
            0 <= k < n ==> #[trigger] s.files_of(paths, n)[k] == s.file_of(paths[k]),
    decreases n,
{
    if n > 0 {
        paths_stay(s, paths, n - 1);
        assert(s.knows_path(paths[n - 1]));
        let before = s.files_of(paths, n - 1);
        assert forall|k: int| 0 <= k < n implies #[trigger] s.files_of(paths, n)[k] == s.file_of(paths[k]) by {
            if k < n - 1 {
                assert(s.files_of(paths, n)[k] == before[k]);
            }
        }
    }
}

/// Whether what a merge knows of files and origins is as it was.
spec fn same_sources(a: MergeV, b: MergeV) -> bool {
    &&& b.files == a.files
    &&& b.primary == a.primary
    &&& b.dropped == a.dropped
    &&& b.program.symbols.files == a.program.symbols.files
    &&& b.program.symbols.paths == a.program.symbols.paths
    &&& b.program.inheritance == a.program.inheritance
    &&& b.program.anon_type_counter == a.program.anon_type_counter
}

proof fn headers_leave_all(s: SymbolsV, tu: FileId, files: Seq<FileId>, n: int)
    ensures
        s.with_headers(tu, files, n) == (SymbolsV {
            headers: s.with_headers(tu, files, n).headers,
            ..s
        }),
    decreases n,
{
    if n > 0 {
        headers_leave_all(s, tu, files, n - 1);
    }
}

proof fn vars_leave_all(m: MergeV, vars: Seq<VarV>, n: int)
    ensures
        same_sources(m, m.with_vars(vars, n)),
        m.with_vars(vars, n).program.dedup == m.program.dedup,
        m.with_vars(vars, n).program.symbols.functions == m.program.symbols.functions,
        m.with_vars(vars, n).program.symbols.call_sites == m.program.symbols.call_sites,
    decreases n,
{
    if n > 0 {
        vars_leave_all(m, vars, n - 1);
    }
}

proof fn fns_are_noted(m: MergeV, fns: Seq<FnV>, n: int)
    requires
        n <= fns.len(),
    ensures
        same_sources(m, m.with_fns(fns, n)),
        m.with_fns(fns, n).program.dedup.sites == m.program.dedup.sites,
        forall|key: (u32, u32, Seq<char>)| #[trigger]
            m.program.dedup.fns.contains_key(key) ==> m.with_fns(
                fns,
                n,
            ).program.dedup.fns.contains_key(key),
        forall|k: int|
            0 <= k < n ==> m.with_fns(fns, n).program.dedup.fns.contains_key(
                m.origin(#[trigger] fns[k]),
            ),
    decreases n,
{
    if n > 0 {
        fns_are_noted(m, fns, n - 1);
        let a = m.with_fns(fns, n - 1);
        assert(a.origin(fns[n - 1]) == m.origin(fns[n - 1]));
    }
}

proof fn fns_stay(m: MergeV, fns: Seq<FnV>, n: int)
    requires
        n <= fns.len(),
        forall|k: int|
            0 <= k < n ==> m.program.dedup.fns.contains_key(m.origin(#[trigger] fns[k])),
    ensures
        m.with_fns(fns, n).program == m.program,
        same_sources(m, m.with_fns(fns, n)),
    decreases n,
{
    if n > 0 {
        fns_stay(m, fns, n - 1);
        let a = m.with_fns(fns, n - 1);
        assert(a.origin(fns[n - 1]) == m.origin(fns[n - 1]));
    }
}

/// What is dropped is what a source has.
proof fn repeats_are_functions(m: MergeV, fns: Seq<FnV>, n: int, id: u32)
    requires
        n <= fns.len(),
        m.repeats(fns, n).contains(id),
    ensures
        exists|k: int| 0 <= k < n && (#[trigger] fns[k]).id.0 == id,
    decreases n,
{
    if n > 0 {
        if fns[n - 1].id.0 != id {
            repeats_are_functions(m, fns, n - 1, id);
        }
    }
}

proof fn all_are_repeats(m: MergeV, fns: Seq<FnV>, n: int)
    requires
        n <= fns.len(),
        forall|k: int|
            0 <= k < n ==> m.program.dedup.fns.contains_key(m.origin(#[trigger] fns[k])),
    ensures
        forall|k: int| 0 <= k < n ==> m.repeats(fns, n).contains((#[trigger] fns[k]).id.0),
    decreases n,
{
    if n > 0 {
        all_are_repeats(m, fns, n - 1);
    }
}

/// Where a call site of a source comes from.
pub open spec fn site_origin(m: MergeV, c: SiteV) -> (u32, u32, u32, Seq<char>) {
    (m.file(c.span.file).0, c.span.line, c.span.col, c.callee_name)
}

/// Whether a call site is one that a merge skips.
spec fn skipped(m: MergeV, c: SiteV) -> bool {
    m.dropped.contains(c.caller.0) || m.program.dedup.sites.contains_key(site_origin(m, c))
}

proof fn sites_are_noted(m: MergeV, sites: Seq<SiteV>, n: int)
    requires
        n <= sites.len(),
    ensures
        same_sources(m, m.with_sites(sites, n)),
        m.with_sites(sites, n).program.dedup.fns == m.program.dedup.fns,
        forall|key: (u32, u32, u32, Seq<char>)| #[trigger]
            m.program.dedup.sites.contains_key(key) ==> m.with_sites(
                sites,
                n,
            ).program.dedup.sites.contains_key(key),
        forall|k: int| 0 <= k < n ==> skipped(m.with_sites(sites, n), #[trigger] sites[k]),
    decreases n,
{
    if n > 0 {
        sites_are_noted(m, sites, n - 1);
        let a = m.with_sites(sites, n - 1);
        let b = m.with_sites(sites, n);
        assert forall|k: int| 0 <= k < n implies skipped(b, #[trigger] sites[k]) by {
            if k < n - 1 {
                assert(skipped(a, sites[k]));
                assert(site_origin(a, sites[k]) == site_origin(b, sites[k]));
            } else {
                assert(site_origin(a, sites[k]) == site_origin(b, sites[k]));
            }
        }
    }
}

proof fn sites_stay(m: MergeV, sites: Seq<SiteV>, n: int)
    requires
        n <= sites.len(),
        forall|k: int| 0 <= k < n ==> skipped(m, #[trigger] sites[k]),
    ensures
        m.with_sites(sites, n) == m,
    decreases n,
{
    if n > 0 {
        sites_stay(m, sites, n - 1);
        assert(skipped(m, sites[n - 1]));
    }
}

/// The stages of a merge: once files are in, once variables are, once
/// functions are, and once variables have their functions.
spec fn stages(p: ProgramV, unit: UnitV) -> (MergeV, MergeV, MergeV, MergeV) {
    let m0 = p.merging(unit);
    let m1 = m0.with_vars(unit.variables, unit.variables.len() as int);
    let m2 = m1.with_fns(unit.functions, unit.functions.len() as int);
    let m3 = m2.with_owners(
        p.symbols.variables.len() as int,
        m2.program.symbols.variables.len() as int,
    );
    (m0, m1, m2, m3)
}

/// Whether every function of a source has been brought from its place.
pub open spec fn all_brought(p: ProgramV, unit: UnitV) -> bool {
    forall|k: int|
        0 <= k < unit.functions.len() ==> p.dedup.fns.contains_key(
            p.starting(unit).origin(#[trigger] unit.functions[k]),
        )
}

/// A source whose functions have all been brought from their places leaves the
/// functions of a program as they are: the first copy of each stays, with its
/// parameters and its locals.
pub proof fn first_copies_stay(p: ProgramV, unit: UnitV)
    requires
        all_brought(p, unit),
    ensures
        p.merged(unit).symbols.functions == p.symbols.functions,
        p.merged(unit).dedup.fns == p.dedup.fns,
        forall|k: int|
            0 <= k < unit.functions.len() ==> p.merging(unit).dropped.contains(
                (#[trigger] unit.functions[k]).id.0,
            ),
{
    let (m0, m1, m2, m3) = stages(p, unit);
    let s1 = p.symbols.with_paths(unit.files, unit.files.len() as int);
    let files = p.symbols.files_of(unit.files, unit.files.len() as int);
    let s2 = s1.with_path(unit.path);
    paths_leave_symbols(p.symbols, unit.files, unit.files.len() as int);
    headers_leave_all(s2, s2.file_of(unit.path), files, files.len() as int);
    vars_leave_all(m0, unit.variables, unit.variables.len() as int);
    assert forall|k: int| 0 <= k < unit.functions.len() implies m1.program.dedup.fns.contains_key(
        m1.origin(#[trigger] unit.functions[k]),
    ) by {
        assert(m1.origin(unit.functions[k]) == p.starting(unit).origin(unit.functions[k]));
    }
    fns_stay(m1, unit.functions, unit.functions.len() as int);
    all_are_repeats(p.starting(unit), unit.functions, unit.functions.len() as int);
    sites_leave_functions(m3, unit.call_sites, unit.call_sites.len() as int);
}

proof fn paths_leave_symbols(s: SymbolsV, paths: Seq<Seq<char>>, n: int)
    ensures
        s.with_paths(paths, n) == (SymbolsV {
            files: s.with_paths(paths, n).files,
            paths: s.with_paths(paths, n).paths,
            ..s
        }),
    decreases n,
{
    if n > 0 {
        paths_leave_symbols(s, paths, n - 1);
    }
}

proof fn sites_leave_functions(m: MergeV, sites: Seq<SiteV>, n: int)
    ensures
        m.with_sites(sites, n).program.symbols.functions == m.program.symbols.functions,
        m.with_sites(sites, n).program.dedup.fns == m.program.dedup.fns,
    decreases n,
{
    if n > 0 {
        sites_leave_functions(m, sites, n - 1);
    }
}

/// Merging a source a second time adds nothing: no function, no call site, no
/// file and no derivation of classes, and all of these stay as they are.
pub proof fn merging_again_adds_nothing(p: ProgramV, unit: UnitV)
    ensures
        ({
            let q = p.merged(unit);
            let r = q.merged(unit);
            &&& r.symbols.functions == q.symbols.functions
            &&& r.symbols.call_sites == q.symbols.call_sites
            &&& r.symbols.files == q.symbols.files
            &&& r.inheritance == q.inheritance
            &&& r.anon_type_counter == q.anon_type_counter
            &&& r.dedup == q.dedup
        }),
{
    let q = p.merged(unit);
    let (m0, m1, m2, m3) = stages(p, unit);
    let m4 = m3.with_sites(unit.call_sites, unit.call_sites.len() as int);
    let files = p.symbols.files_of(unit.files, unit.files.len() as int);
    let s1 = p.symbols.with_paths(unit.files, unit.files.len() as int);
    let s2 = s1.with_path(unit.path);
    paths_are_noted(p.symbols, unit.files, unit.files.len() as int);
    headers_leave_all(s2, m0.primary, files, files.len() as int);
    vars_leave_all(m0, unit.variables, unit.variables.len() as int);
    fns_are_noted(m1, unit.functions, unit.functions.len() as int);
    sites_are_noted(m3, unit.call_sites, unit.call_sites.len() as int);
    let edges = p.inheritance;
    edges_are_noted(edges, unit.inheritance, unit.inheritance.len() as int);
    edges_stay(q.inheritance, unit.inheritance, unit.inheritance.len() as int);
    assert(q.symbols.paths == s2.paths);
    assert forall|k: int| 0 <= k < unit.files.len() implies q.symbols.knows_path(
        #[trigger] unit.files[k],
    ) by {
        assert(s1.knows_path(unit.files[k]));
    }
    paths_stay(q.symbols, unit.files, unit.files.len() as int);
    let (n0, n1, n2, n3) = stages(q, unit);
    assert(n0.files =~= m0.files) by {
        assert forall|k: int| 0 <= k < unit.files.len() implies n0.files[k] == m0.files[k] by {
            assert(s1.knows_path(unit.files[k]));
            assert(q.symbols.files_of(unit.files, unit.files.len() as int)[k] == q.symbols.file_of(unit.files[k]));
        }
    }
    assert(n0.primary == m0.primary);
    headers_leave_all(q.symbols, n0.primary, n0.files, n0.files.len() as int);
    assert forall|k: int| 0 <= k < unit.functions.len() implies q.dedup.fns.contains_key(
        q.starting(unit).origin(#[trigger] unit.functions[k]),
    ) by {
        assert(m1.origin(unit.functions[k]) == q.starting(unit).origin(unit.functions[k]));
    }
    first_copies_stay(q, unit);
    vars_leave_all(n0, unit.variables, unit.variables.len() as int);
    assert forall|k: int| 0 <= k < unit.functions.len() implies n1.program.dedup.fns.contains_key(
        n1.origin(#[trigger] unit.functions[k]),
    ) by {
        assert(n1.origin(unit.functions[k]) == q.starting(unit).origin(unit.functions[k]));
    }
    fns_stay(n1, unit.functions, unit.functions.len() as int);
    assert forall|k: int| 0 <= k < unit.call_sites.len() implies skipped(
        n3,
        #[trigger] unit.call_sites[k],
    ) by {
        let c = unit.call_sites[k];
        assert(skipped(m4, c));
        assert(site_origin(m4, c) == site_origin(n3, c));
        if m4.dropped.contains(c.caller.0) {
            repeats_are_functions(
                p.starting(unit),
                unit.functions,
                unit.functions.len() as int,
                c.caller.0,
            );
            let j = choose|j: int|
                0 <= j < unit.functions.len() && (#[trigger] unit.functions[j]).id.0 == c.caller.0;
            assert(q.merging(unit).dropped.contains(unit.functions[j].id.0));
        }
    }
    sites_stay(n3, unit.call_sites, unit.call_sites.len() as int);
}

} // verus!
