//! From the files of a project to one program.

use crate::index::discover::{discover_source_files, headers_among, in_order, units_among};
use crate::index::includes::{graph_of, reachable, GraphV, IncludeGraph};
use crate::index::lower::unit::{index_source_file, is_unit_of};
use crate::index::merge::{merge_unit_index, UnitIndex, UnitV};
use crate::index::names::{is_plain_ident, plain_name};
use crate::ir::diagnostic::{Diagnostic, DiagnosticSeverity, ReportV};
use crate::ir::ids::{FileId, FnId, Span, TypeId, VarId};
use crate::ir::program::{empty_program, pairs_view, push_pair, Program, ProgramV};
use crate::ir::symbol::{next_number, FnV, Function, Linkage, SiteV, SymbolsV};
use crate::paths::{extension, extension_of, file_name, file_name_of};
use crate::preproc::macros::{
    apply_ops, macro_table_from_defines, put_result_over, table_of_defines, MacroV,
};
use crate::preproc::options::{
    absorbed, canonical_of, BasenameIndex, ExpansionCache, ExpansionV, FileV, PreprocessOptions,
    SourceTree,
};
use crate::preproc::run::{file_result, preprocess_file};
use crate::preproc::state::{ConfigV, OptionsV};
use crate::text::{
    add_names, cat2, cat3, clone_names, comes_before, contains_name, is_before, names_view, owned,
    push_name, str_eq, with_names,
};
use vstd::prelude::*;

verus! {

broadcast use crate::text::take_push;

/// A name that calls use and nothing declares, and the first place of such a
/// call.
pub struct ExternUse {
    pub name: String,
    pub file: FileId,
    pub line: u32,
}

/// The mathematical form of an [`ExternUse`].
pub struct UseV {
    pub name: Seq<char>,
    pub file: FileId,
    pub line: u32,
}

impl View for ExternUse {
    type V = UseV;

    open spec fn view(&self) -> UseV {
        UseV { name: self.name@, file: self.file, line: self.line }
    }
}

pub open spec fn uses_view(s: Seq<ExternUse>) -> Seq<UseV> {
    Seq::new(s.len(), |i: int| s[i]@)
}

/// Whether a call is one by a plain name that leads nowhere.
pub open spec fn leads_nowhere(s: SiteV) -> bool {
    !s.is_direct && s.callee_var is None && s.callee_fn_id is None && plain_name(s.callee_name)
}

/// The uses with one more, from `i` on: a name is there once, with the first
/// of its places, and names are in the order of their characters.
pub open spec fn with_use(uses: Seq<UseV>, u: UseV, i: int) -> Seq<UseV>
    decreases uses.len() - i,
{
    if i < 0 || i >= uses.len() {
        uses.push(u)
    } else if uses[i].name == u.name {
        if u.file.0 < uses[i].file.0 || (u.file == uses[i].file && u.line < uses[i].line) {
            uses.update(i, u)
        } else {
            uses
        }
    } else if comes_before(u.name, uses[i].name, 0) {
        uses.insert(i, u)
    } else {
        with_use(uses, u, i + 1)
    }
}

/// The uses among the first `n` calls.
pub open spec fn uses_in(sites: Seq<SiteV>, n: int) -> Seq<UseV>
    decreases n,
{
    if n <= 0 {
        Seq::empty()
    } else if leads_nowhere(sites[n - 1]) {
        with_use(
            uses_in(sites, n - 1),
            UseV {
                name: sites[n - 1].callee_name,
                file: sites[n - 1].span.file,
                line: sites[n - 1].span.line,
            },
            0,
        )
    } else {
        uses_in(sites, n - 1)
    }
}

/// The function that stands for a name that nothing declares.
pub open spec fn stand_in(id: FnId, u: UseV) -> FnV {
    FnV {
        id,
        name: u.name,
        linkage: Linkage::External,
        return_type: TypeId(0),
        params: Seq::empty(),
        locals: Seq::empty(),
        span: Span { file: u.file, line: u.line, col: 0 },
        file: u.file,
        is_defined: false,
        is_virtual: false,
        is_cpp: false,
    }
}

impl SymbolsV {
    /// With a function for a name that nothing declares, which the calls by
    /// that name then lead to. No name leads to the function.
    pub open spec fn with_extern(self, u: UseV) -> SymbolsV {
        if self.resolve(u.name) is Some {
            self
        } else {
            let id = FnId(self.next_fn);
            SymbolsV { next_fn: next_number(self.next_fn), ..self }.with_unlisted(
                stand_in(id, u),
            ).resolved_to(u.name, id)
        }
    }

    /// With functions for the first `n` names.
    pub open spec fn with_externs(self, uses: Seq<UseV>, n: int) -> SymbolsV
        decreases n,
    {
        if n <= 0 {
            self
        } else {
            self.with_externs(uses, n - 1).with_extern(uses[n - 1])
        }
    }
}

impl ProgramV {
    /// With functions for all names that calls use and nothing declares.
    pub open spec fn with_extern_callees(self) -> ProgramV {
        let uses = uses_in(self.symbols.call_sites, self.symbols.call_sites.len() as int);
        ProgramV { symbols: self.symbols.with_externs(uses, uses.len() as int), ..self }
    }
}

fn add_use(uses: &mut Vec<ExternUse>, u: ExternUse)
    ensures
        uses_view(final(uses)@) == with_use(uses_view(old(uses)@), u@, 0),
{
    let ghost start = uses_view(uses@);
    let ghost v = u@;
    let mut i: usize = 0;
    while i < uses.len()
        invariant
            i <= uses@.len(),
            uses@ == old(uses)@,
            start == uses_view(uses@),
            v == u@,
            with_use(start, v, i as int) == with_use(start, v, 0),
        decreases uses@.len() - i,
    {
        assert(start[i as int] == uses@[i as int]@);
        if str_eq(uses[i].name.as_str(), u.name.as_str()) {
            if u.file.0 < uses[i].file.0 || (u.file.0 == uses[i].file.0 && u.line
                < uses[i].line) {
                uses.set(i, u);
                assert(uses_view(uses@) =~= start.update(i as int, v));
            }
            return ;
        }
        if is_before(u.name.as_str(), uses[i].name.as_str()) {
            uses.insert(i, u);
            assert(uses_view(uses@) =~= start.insert(i as int, v));
            return ;
        }
        i = i + 1;
    }
    uses.push(u);
    assert(uses_view(uses@) =~= start.push(v));
}

fn find_uses(program: &Program) -> (r: Vec<ExternUse>)
    ensures
        uses_view(r@) == uses_in(
            program@.symbols.call_sites,
            program@.symbols.call_sites.len() as int,
        ),
{
    let mut uses: Vec<ExternUse> = Vec::new();
    let n = program.symbols.call_site_count();
    let mut i: usize = 0;
    assert(uses_view(uses@) =~= Seq::empty());
    while i < n
        invariant
            i <= n == program@.symbols.call_sites.len(),
            uses_view(uses@) == uses_in(program@.symbols.call_sites, i as int),
        decreases n - i,
    {
        let s = program.symbols.call_site_at(i);
        if !s.is_direct && s.callee_var.is_none() && s.callee_fn_id.is_none() && is_plain_ident(
            s.callee_name.as_str(),
        ) {
            add_use(
                &mut uses,
                ExternUse {
                    name: s.callee_name.clone(),
                    file: s.span.file,
                    line: s.span.line,
                },
            );
        }
        i = i + 1;
    }
    uses
}

fn add_extern(program: &mut Program, u: &ExternUse)
    requires
        old(program).wf(),
    ensures
        final(program).wf(),
        final(program)@ == (ProgramV {
            symbols: old(program)@.symbols.with_extern(u@),
            ..old(program)@
        }),
{
    if program.symbols.resolve_function(u.name.as_str()).is_some() {
        return ;
    }
    let id = program.symbols.alloc_fn_id();
    let params: Vec<VarId> = Vec::new();
    let locals: Vec<VarId> = Vec::new();
    assert(params@ =~= Seq::empty());
    assert(locals@ =~= Seq::empty());
    program.symbols.add_unlisted(
        Function {
            id,
            name: u.name.clone(),
            linkage: Linkage::External,
            return_type: TypeId(0),
            params,
            locals,
            span: Span { file: u.file, line: u.line, col: 0 },
            file: u.file,
            is_defined: false,
            is_virtual: false,
            is_cpp: false,
        },
    );
    program.symbols.resolve_calls_to(u.name.as_str(), id);
}

/// Gives every name that calls use and nothing declares a function of its
/// own, which stands for what is outside the project. No name leads to these
/// functions, so that they cannot stand in the way of what is declared.
pub fn finalize_extern_callees(program: &mut Program)
    requires
        old(program).wf(),
    ensures
        final(program).wf(),
        final(program)@ == old(program)@.with_extern_callees(),
{
    let uses = find_uses(program);
    let ghost start = program@;
    let ghost all = uses_view(uses@);
    let mut i: usize = 0;
    while i < uses.len()
        invariant
            program.wf(),
            i <= uses@.len(),
            all == uses_view(uses@),
            program@ == (ProgramV {
                symbols: start.symbols.with_externs(all, i as int),
                ..start
            }),
        decreases uses@.len() - i,
    {
        assert(all[i as int] == uses@[i as int]@);
        add_extern(program, &uses[i]);
        i = i + 1;
    }
}

/// The paths that all spellings of paths share.
pub open spec fn canonicals(tree: Map<Seq<char>, FileV>, paths: Seq<Seq<char>>) -> Seq<Seq<char>> {
    Seq::new(paths.len(), |i: int| canonical_of(tree, paths[i]))
}

fn canonical_paths(tree: &SourceTree, paths: &Vec<String>) -> (r: Vec<String>)
    ensures
        names_view(r@) == canonicals(tree@, names_view(paths@)),
{
    let ghost all = canonicals(tree@, names_view(paths@));
    let mut out: Vec<String> = Vec::new();
    let mut i: usize = 0;
    while i < paths.len()
        invariant
            i <= paths@.len(),
            all == canonicals(tree@, names_view(paths@)),
            names_view(out@) == all.take(i as int),
        decreases paths@.len() - i,
    {
        push_name(&mut out, tree.canonicalize(paths[i].as_str()));
        assert(all[i as int] == canonical_of(tree@, paths@[i as int]@));
        i = i + 1;
    }
    assert(all.take(i as int) =~= all);
    out
}

/// The first `n` paths by their file names.
pub open spec fn by_name(paths: Seq<Seq<char>>, n: int) -> Map<Seq<char>, Seq<Seq<char>>>
    decreases n,
{
    if n <= 0 {
        Map::empty()
    } else {
        let m = by_name(paths, n - 1);
        let name = file_name_of(paths[n - 1]);
        m.insert(
            name,
            (if m.contains_key(name) {
                m[name]
            } else {
                Seq::empty()
            }).push(paths[n - 1]),
        )
    }
}

fn index_by_name(paths: &Vec<String>) -> (r: BasenameIndex)
    ensures
        r@ == by_name(names_view(paths@), paths@.len() as int),
{
    let mut index = BasenameIndex::new();
    let mut i: usize = 0;
    while i < paths.len()
        invariant
            i <= paths@.len(),
            index@ == by_name(names_view(paths@), i as int),
        decreases paths@.len() - i,
    {
        assert(names_view(paths@)[i as int] == paths@[i as int]@);
        let name = file_name(paths[i].as_str());
        let mut list = match index.get(name.as_str()) {
            Some(v) => clone_names(v),
            None => {
                let v: Vec<String> = Vec::new();
                assert(names_view(v@) =~= Seq::empty());
                v
            },
        };
        push_name(&mut list, paths[i].clone());
        index.insert(name, list);
        i = i + 1;
    }
    index
}

/// What the headers of a project have come to when they were preprocessed on
/// their own.
#[verifier::ext_equal]
pub struct WarmV {
    pub reports: Seq<ReportV>,
    pub cache: Map<Seq<char>, ExpansionV>,
    /// What the headers define, all together.
    pub macros: Map<Seq<char>, MacroV>,
}

/// A report on a header that could not be preprocessed on its own.
pub open spec fn header_report(path: Seq<char>, message: Seq<char>) -> ReportV {
    ReportV {
        severity: DiagnosticSeverity::Warning,
        file: None,
        line: 0,
        message: "macro warm preprocess failed for "@ + path + ": "@ + message,
        stage: "preprocess"@,
    }
}

/// What a header is preprocessed with: nothing is defined but what the
/// command line defines, so that no header can hide what is in another.
pub open spec fn header_options(o: OptionsV, cache: Map<Seq<char>, ExpansionV>) -> OptionsV {
    OptionsV {
        cfg: ConfigV { cache: Some(cache), frozen: false, accumulate: true, ..o.cfg },
        shared: Some(table_of_defines(o.defines, Map::empty())),
        ..o
    }
}

impl WarmV {
    /// After one more header.
    pub open spec fn after_header(self, o: OptionsV, path: Seq<char>) -> WarmV {
        match file_result(path, header_options(o, self.cache)) {
            Ok(res) => WarmV {
                cache: absorbed(self.cache, res.new_expansions),
                macros: self.macros.union_prefer_right(
                    apply_ops(table_of_defines(o.defines, Map::empty()), res.macro_updates),
                ),
                ..self
            },
            Err(e) => WarmV {
                reports: self.reports.push(header_report(path, e.text())),
                ..self
            },
        }
    }

    /// After the first `n` headers.
    pub open spec fn after_headers(self, o: OptionsV, paths: Seq<Seq<char>>, n: int) -> WarmV
        decreases n,
    {
        if n <= 0 {
            self
        } else {
            self.after_headers(o, paths, n - 1).after_header(o, paths[n - 1])
        }
    }
}

/// What there is to be done for a project.
pub struct BuildPlan {
    pub program: Program,
    pub root: String,
    /// What the sources are preprocessed with.
    pub opts: PreprocessOptions,
    /// The files to be indexed, in order.
    pub sources: Vec<String>,
    pub graph: IncludeGraph,
}

/// The mathematical form of a [`BuildPlan`].
pub struct PlanV {
    pub program: ProgramV,
    pub root: Seq<char>,
    pub opts: OptionsV,
    pub sources: Seq<Seq<char>>,
    pub graph: GraphV,
}

impl View for BuildPlan {
    type V = PlanV;

    open spec fn view(&self) -> PlanV {
        PlanV {
            program: self.program@,
            root: self.root@,
            opts: self.opts@,
            sources: names_view(self.sources@),
            graph: self.graph@,
        }
    }
}

/// Whether a file is a header by the ending `.h`.
pub open spec fn is_plain_header(path: Seq<char>) -> bool {
    extension_of(path) == Some("h"@) || extension_of(path) == Some("H"@)
}

fn has_header_ending(path: &str) -> (r: bool)
    ensures
        r == is_plain_header(path@),
{
    match extension(path) {
        Some(e) => str_eq(e.as_str(), "h") || str_eq(e.as_str(), "H"),
        None => false,
    }
}

/// The headers among the first `n` files that are, or are not, among others.
pub open spec fn headers_in(files: Seq<Seq<char>>, known: Seq<Seq<char>>, are: bool, n: int) -> Seq<
    Seq<char>,
>
    decreases n,
{
    if n <= 0 {
        Seq::empty()
    } else {
        let before = headers_in(files, known, are, n - 1);
        if is_plain_header(files[n - 1]) && known.contains(files[n - 1]) == are {
            before.push(files[n - 1])
        } else {
            before
        }
    }
}

fn find_headers(files: &Vec<String>, known: &Vec<String>, are: bool) -> (r: Vec<String>)
    ensures
        names_view(r@) == headers_in(
            names_view(files@),
            names_view(known@),
            are,
            files@.len() as int,
        ),
{
    let mut out: Vec<String> = Vec::new();
    let mut i: usize = 0;
    assert(names_view(out@) =~= Seq::empty());
    while i < files.len()
        invariant
            i <= files@.len(),
            names_view(out@) == headers_in(names_view(files@), names_view(known@), are, i as int),
        decreases files@.len() - i,
    {
        assert(names_view(files@)[i as int] == files@[i as int]@);
        if has_header_ending(files[i].as_str()) && contains_name(known, files[i].as_str()) == are {
            push_name(&mut out, files[i].clone());
        }
        i = i + 1;
    }
    out
}

/// What all files of a project are preprocessed with.
pub open spec fn project_options(o: OptionsV, g: GraphV) -> OptionsV {
    OptionsV {
        cfg: ConfigV {
            include_paths: with_names(o.cfg.include_paths, g.include_dirs),
            index: Some(by_name(g.files, g.files.len() as int)),
            ..o.cfg
        },
        ..o
    }
}

/// What there is to be done for the sources and headers of a project. The
/// headers that a source draws in, directly or not, are preprocessed first.
/// The others are indexed by themselves, before the sources.
pub open spec fn planned(
    root: Seq<char>,
    units: Seq<Seq<char>>,
    headers: Seq<Seq<char>>,
    o: OptionsV,
) -> PlanV {
    let g = graph_of(o.cfg.tree, units, headers);
    let known = reachable(g.edges, units);
    let first = headers_in(g.files, known, true, g.files.len() as int);
    let alone = headers_in(g.files, known, false, g.files.len() as int);
    let po = project_options(o, g);
    let w = WarmV {
        reports: Seq::empty(),
        cache: Map::empty(),
        macros: table_of_defines(o.defines, Map::empty()),
    }.after_headers(po, first, first.len() as int);
    PlanV {
        program: ProgramV {
            include_paths: o.cfg.include_paths,
            defines: once_each(o.defines, o.defines.len() as int),
            diagnostics: w.reports,
            ..empty_program(root)
        },
        root,
        opts: OptionsV {
            cfg: ConfigV { cache: Some(w.cache), frozen: true, accumulate: false, ..po.cfg },
            shared: Some(w.macros),
            ..po
        },
        sources: alone + units,
        graph: g,
    }
}

/// Which pair from `i` on defines a name; the length if none does.
pub open spec fn define_position(
    defines: Seq<(Seq<char>, Seq<char>)>,
    name: Seq<char>,
    i: int,
) -> int
    decreases defines.len() - i,
{
    if i < 0 || i >= defines.len() || defines[i].0 == name {
        i
    } else {
        define_position(defines, name, i + 1)
    }
}

/// With one more definition: a name that is defined keeps its place, and gets
/// the new value.
pub open spec fn with_define(
    defines: Seq<(Seq<char>, Seq<char>)>,
    d: (Seq<char>, Seq<char>),
) -> Seq<(Seq<char>, Seq<char>)> {
    let k = define_position(defines, d.0, 0);
    if k < defines.len() {
        defines.update(k, d)
    } else {
        defines.push(d)
    }
}

/// The first `n` definitions, each name once.
pub open spec fn once_each(defines: Seq<(Seq<char>, Seq<char>)>, n: int) -> Seq<
    (Seq<char>, Seq<char>),
>
    decreases n,
{
    if n <= 0 {
        Seq::empty()
    } else {
        with_define(once_each(defines, n - 1), defines[n - 1])
    }
}

fn find_define(defines: &Vec<(String, String)>, name: &str) -> (r: usize)
    ensures
        r == define_position(pairs_view(defines@), name@, 0),
        r <= defines@.len(),
{
    let mut i: usize = 0;
    while i < defines.len()
        invariant
            i <= defines@.len(),
            define_position(pairs_view(defines@), name@, i as int) == define_position(
                pairs_view(defines@),
                name@,
                0,
            ),
        decreases defines@.len() - i,
    {
        assert(pairs_view(defines@)[i as int].0 == defines@[i as int].0@);
        if str_eq(defines[i].0.as_str(), name) {
            return i;
        }
        i = i + 1;
    }
    i
}

fn collect_defines(defines: &Vec<(String, String)>) -> (r: Vec<(String, String)>)
    ensures
        pairs_view(r@) == once_each(pairs_view(defines@), defines@.len() as int),
{
    let ghost all = pairs_view(defines@);
    let mut out: Vec<(String, String)> = Vec::new();
    let mut i: usize = 0;
    assert(pairs_view(out@) =~= Seq::empty());
    while i < defines.len()
        invariant
            i <= defines@.len(),
            all == pairs_view(defines@),
            pairs_view(out@) == once_each(all, i as int),
        decreases defines@.len() - i,
    {
        assert(all[i as int] == (defines@[i as int].0@, defines@[i as int].1@));
        let k = find_define(&out, defines[i].0.as_str());
        if k < out.len() {
            let ghost before = out@;
            out.set(k, (defines[i].0.clone(), defines[i].1.clone()));
            assert(pairs_view(out@) =~= pairs_view(before).update(k as int, all[i as int]));
        } else {
            push_pair(&mut out, defines[i].0.clone(), defines[i].1.clone());
        }
        i = i + 1;
    }
    out
}

/// Preprocesses headers on their own. The options are those of the project;
/// the result are the reports and what the headers define.
fn warm_headers(
    program: &mut Program,
    opts: PreprocessOptions,
    paths: &Vec<String>,
) -> (r: PreprocessOptions)
    requires
        old(program).wf(),
        old(program)@.diagnostics.len() == 0,
    ensures
        final(program).wf(),
        ({
            let w = WarmV {
                reports: Seq::empty(),
                cache: Map::empty(),
                macros: table_of_defines(opts@.defines, Map::empty()),
            }.after_headers(opts@, names_view(paths@), paths@.len() as int);
            &&& final(program)@ == (ProgramV { diagnostics: w.reports, ..old(program)@ })
            &&& r@ == (OptionsV {
                cfg: ConfigV {
                    cache: Some(w.cache),
                    frozen: true,
                    accumulate: false,
                    ..opts@.cfg
                },
                shared: Some(w.macros),
                ..opts@
            })
        }),
{
    let ghost o = opts@;
    let ghost start = WarmV {
        reports: Seq::empty(),
        cache: Map::empty(),
        macros: table_of_defines(o.defines, Map::empty()),
    };
    let ghost p0 = program@;
    let ghost all = names_view(paths@);
    let mut opts = opts;
    let mut macros = macro_table_from_defines(&opts.defines);
    let mut cache = ExpansionCache::new();
    opts.frozen_expansion_cache = false;
    opts.accumulate_macros = true;
    let mut i: usize = 0;
    assert(p0.diagnostics =~= Seq::empty());
    while i < paths.len()
        invariant
            program.wf(),
            i <= paths@.len(),
            all == names_view(paths@),
            o.defines == pairs_view(opts.defines@),
            opts.accumulate_macros,
            opts@.cfg == (ConfigV {
                cache: opts@.cfg.cache,
                frozen: false,
                accumulate: opts@.cfg.accumulate,
                ..o.cfg
            }),
            ({
                let w = start.after_headers(o, all, i as int);
                &&& program@ == (ProgramV { diagnostics: w.reports, ..p0 })
                &&& cache@ == w.cache
                &&& macros@ == w.macros
            }),
        decreases paths@.len() - i,
    {
        let path = &paths[i];
        assert(all[i as int] == path@);
        opts.include_expansion_cache = Some(cache);
        opts.shared_macros = Some(macro_table_from_defines(&opts.defines));
        let ghost w = start.after_headers(o, all, i as int);
        assert(opts@ == header_options(o, w.cache));
        let result = preprocess_file(path.as_str(), &opts);
        cache = match opts.include_expansion_cache.take() {
            Some(c) => c,
            None => ExpansionCache::new(),
        };
        match result {
            Ok(res) => {
                cache.absorb(res.new_expansions);
                put_result_over(&mut macros, &opts.defines, &res.macro_updates);
            },
            Err(e) => {
                let head = cat3("macro warm preprocess failed for ", path.as_str(), ": ");
                let text = e.text();
                program.add_diagnostic(
                    Diagnostic {
                        severity: DiagnosticSeverity::Warning,
                        file: None,
                        line: 0,
                        message: cat2(head.as_str(), text.as_str()),
                        stage: owned("preprocess"),
                    },
                );
            },
        }
        i = i + 1;
    }
    opts.include_expansion_cache = Some(cache);
    opts.shared_macros = Some(macros);
    opts.frozen_expansion_cache = true;
    opts.accumulate_macros = false;
    opts
}

/// What there is to be done for the sources and headers of a project.
pub fn plan_sources(
    root: &str,
    units: &Vec<String>,
    headers: &Vec<String>,
    opts: PreprocessOptions,
) -> (r: BuildPlan)
    ensures
        r.program.wf(),
        r@ == planned(root@, names_view(units@), names_view(headers@), opts@),
{
    let ghost o = opts@;
    let mut program = Program::new(owned(root));
    program.include_paths = clone_names(&opts.include_paths);
    program.defines = collect_defines(&opts.defines);
    let graph = IncludeGraph::build(&opts.tree, units, headers);
    let known = graph.reachable_from(units);
    let first = find_headers(&graph.files, &known, true);
    let mut sources = find_headers(&graph.files, &known, false);
    let mut opts = opts;
    add_names(&mut opts.include_paths, &graph.include_dirs);
    opts.basename_index = Some(index_by_name(&graph.files));
    assert(opts@ == project_options(o, graph@));
    let opts = warm_headers(&mut program, opts, &first);
    let ghost alone = names_view(sources@);
    let mut i: usize = 0;
    assert(alone + names_view(units@).take(0) =~= alone);
    while i < units.len()
        invariant
            i <= units@.len(),
            names_view(sources@) == alone + names_view(units@).take(i as int),
        decreases units@.len() - i,
    {
        push_name(&mut sources, units[i].clone());
        assert(names_view(units@)[i as int] == units@[i as int]@);
        assert(alone + names_view(units@).take(i + 1) =~= (alone + names_view(units@).take(
            i as int,
        )).push(names_view(units@)[i as int]));
        i = i + 1;
    }
    assert(names_view(units@).take(i as int) =~= names_view(units@));
    BuildPlan { program, root: owned(root), opts, sources, graph }
}

/// Whether lists hold the sources and the headers among files, in order.
pub open spec fn discovered(
    files: Seq<Seq<char>>,
    units: Seq<Seq<char>>,
    headers: Seq<Seq<char>>,
) -> bool {
    &&& in_order(units)
    &&& units.to_multiset() == units_among(files, files.len() as int).to_multiset()
    &&& in_order(headers)
    &&& headers.to_multiset() == headers_among(files, files.len() as int).to_multiset()
}

/// Whether a plan is one for the files of a project.
pub open spec fn is_plan_for(
    plan: PlanV,
    root: Seq<char>,
    files: Seq<Seq<char>>,
    o: OptionsV,
) -> bool {
    exists|units: Seq<Seq<char>>, headers: Seq<Seq<char>>| #[trigger]
        discovered(files, units, headers) && plan == planned(
            root,
            canonicals(o.cfg.tree, units),
            canonicals(o.cfg.tree, headers),
            o,
        )
}

/// Whether there is nothing to analyze among files.
pub open spec fn no_sources(files: Seq<Seq<char>>) -> bool {
    units_among(files, files.len() as int).len() == 0 && headers_among(
        files,
        files.len() as int,
    ).len() == 0
}

proof fn same_length(a: Seq<Seq<char>>, b: Seq<Seq<char>>)
    requires
        a.to_multiset() == b.to_multiset(),
    ensures
        a.len() == b.len(),
{
    a.to_multiset_ensures();
    b.to_multiset_ensures();
}

/// What there is to be done for the files of a project: `files` lists all
/// that is under its root.
pub fn plan_build(root: &str, files: &Vec<String>, opts: PreprocessOptions) -> (r: Result<
    BuildPlan,
    String,
>)
    ensures
        match r {
            Ok(plan) => plan.program.wf() && !no_sources(names_view(files@)) && is_plan_for(
                plan@,
                root@,
                names_view(files@),
                opts@,
            ),
            Err(e) => no_sources(names_view(files@)) && e@
                == "no C/C++ source files found under "@ + root@,
        },
{
    let (units, headers) = discover_source_files(files);
    let ghost all = names_view(files@);
    proof {
        same_length(names_view(units@), units_among(all, all.len() as int));
        same_length(names_view(headers@), headers_among(all, all.len() as int));
    }
    if units.len() == 0 && headers.len() == 0 {
        return Err(cat2("no C/C++ source files found under ", root));
    }
    let own_units = canonical_paths(&opts.tree, &units);
    let own_headers = canonical_paths(&opts.tree, &headers);
    let plan = plan_sources(root, &own_units, &own_headers, opts);
    assert(discovered(all, names_view(units@), names_view(headers@)));
    Ok(plan)
}

impl ProgramV {
    /// With the first `n` units merged into it.
    pub open spec fn merged_all(self, units: Seq<UnitV>, n: int) -> ProgramV
        decreases n,
    {
        if n <= 0 {
            self
        } else {
            self.merged_all(units, n - 1).merged(units[n - 1])
        }
    }
}

/// What a project comes to once all of its files have been indexed.
pub open spec fn finished(plan: PlanV, units: Seq<UnitV>) -> ProgramV {
    let p = plan.program.merged_all(units, units.len() as int);
    ProgramV {
        include_deps: plan.graph.edges,
        include_paths: with_names(p.include_paths, plan.graph.include_dirs),
        ..p
    }.with_extern_callees()
}

pub open spec fn units_view(s: Seq<UnitIndex>) -> Seq<UnitV> {
    Seq::new(s.len(), |i: int| s[i]@)
}

/// Puts the units of a project together, in the order of the plan.
pub fn finish_build(plan: BuildPlan, units: &Vec<UnitIndex>) -> (r: Program)
    requires
        plan.program.wf(),
        forall|i: int| 0 <= i < units@.len() ==> (#[trigger] units@[i]).fn_returns.wf(),
    ensures
        r.wf(),
        r@ == finished(plan@, units_view(units@)),
{
    let ghost start = plan.program@;
    let ghost all = units_view(units@);
    let mut program = plan.program;
    let mut i: usize = 0;
    while i < units.len()
        invariant
            program.wf(),
            i <= units@.len(),
            all == units_view(units@),
            forall|k: int| 0 <= k < units@.len() ==> (#[trigger] units@[k]).fn_returns.wf(),
            program@ == start.merged_all(all, i as int),
        decreases units@.len() - i,
    {
        assert(all[i as int] == units@[i as int]@);
        merge_unit_index(&mut program, &units[i]);
        i = i + 1;
    }
    program.include_deps = plan.graph.edges;
    add_names(&mut program.include_paths, &plan.graph.include_dirs);
    finalize_extern_callees(&mut program);
    program
}

/// Whether units are what the sources of a plan contribute, one by one.
pub open spec fn are_units_of(units: Seq<UnitV>, plan: PlanV) -> bool {
    &&& units.len() == plan.sources.len()
    &&& forall|i: int|
        0 <= i < units.len() ==> is_unit_of(
            #[trigger] units[i],
            plan.root,
            plan.sources[i],
            canonical_of(plan.opts.cfg.tree, plan.sources[i]),
            file_result(plan.sources[i], plan.opts),
        )
}

/// Indexes the sources of a plan one after the other.
pub fn index_sources(plan: &BuildPlan) -> (r: Vec<UnitIndex>)
    ensures
        are_units_of(units_view(r@), plan@),
        forall|i: int| 0 <= i < r@.len() ==> (#[trigger] r@[i]).fn_returns.wf(),
{
    let mut units: Vec<UnitIndex> = Vec::new();
    let mut i: usize = 0;
    while i < plan.sources.len()
        invariant
            i <= plan.sources@.len(),
            units@.len() == i,
            forall|k: int| 0 <= k < i ==> (#[trigger] units@[k]).fn_returns.wf(),
            forall|k: int|
                0 <= k < i ==> is_unit_of(
                    (#[trigger] units@[k])@,
                    plan@.root,
                    plan@.sources[k],
                    canonical_of(plan@.opts.cfg.tree, plan@.sources[k]),
                    file_result(plan@.sources[k], plan@.opts),
                ),
        decreases plan.sources@.len() - i,
    {
        assert(plan@.sources[i as int] == plan.sources@[i as int]@);
        let unit = index_source_file(plan.sources[i].as_str(), plan.root.as_str(), &plan.opts);
        units.push(unit);
        i = i + 1;
    }
    assert forall|k: int| 0 <= k < units_view(units@).len() implies is_unit_of(
        #[trigger] units_view(units@)[k],
        plan@.root,
        plan@.sources[k],
        canonical_of(plan@.opts.cfg.tree, plan@.sources[k]),
        file_result(plan@.sources[k], plan@.opts),
    ) by {
        assert(units@[k]@ == units_view(units@)[k]);
    }
    units
}

/// Builds the program of a project: `files` lists all that is under its root,
/// and the tree of the options holds what can be read.
pub fn build_program(root: &str, files: &Vec<String>, opts: PreprocessOptions) -> (r: Result<
    Program,
    String,
>)
    ensures
        match r {
            Ok(p) => p.wf() && !no_sources(names_view(files@)) && exists|
                plan: PlanV,
                units: Seq<UnitV>,
            | #[trigger]
                is_plan_for(plan, root@, names_view(files@), opts@) && #[trigger] are_units_of(
                    units,
                    plan,
                ) && p@ == finished(plan, units),
            Err(e) => no_sources(names_view(files@)) && e@
                == "no C/C++ source files found under "@ + root@,
        },
{
    match plan_build(root, files, opts) {
        Ok(plan) => {
            let units = index_sources(&plan);
            let ghost made = plan@;
            let program = finish_build(plan, &units);
            assert(is_plan_for(made, root@, names_view(files@), opts@));
            assert(are_units_of(units_view(units@), made));
            Ok(program)
        },
        Err(e) => Err(e),
    }
}

} // verus!
