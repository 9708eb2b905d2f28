//! One source, from its text to what it contributes.

use crate::collections::fx_name_map;
use crate::index::discover::{is_cpp, is_cpp_path, SourceLang};
use crate::index::lower::state::{opts_view, pends_view, Lower, LowerV, PendV, PendingFnRef};
use crate::index::merge::{UnitIndex, UnitV};
use crate::index::parse::{parse_source_with_lang, tree_of, ParseResult, ParsedV};
use crate::index::syntax::shaped;
use crate::ir::diagnostic::{push_report, reports_view, Diagnostic, DiagnosticSeverity, ReportV};
use crate::ir::flow::{FlowConstraint, FlowV, ReturnFlow, ReturnV};
use crate::ir::ids::FileId;
use crate::ir::program::{empty_program, Program, ProgramV, ReturnTable};
use crate::ir::symbol::{files_view, FileInfo};
use crate::ir::types::TypeTable;
use crate::preproc::line_map::{LineMap, LineMapV};
use crate::preproc::options::{canonical_of, PreprocessOptions};
use crate::preproc::run::{file_result, preprocess_file, ResultV};
use crate::preproc::state::ErrorV;
use crate::text::{cat2, names_view, owned, push_name};
use vstd::prelude::*;

verus! {

impl LowerV {
    /// After a use of a name that had been put off.
    pub open spec fn after_pending(self, p: PendV) -> LowerV {
        match p {
            PendV::FieldStore { dst, name, span } => match self.named_fn(name) {
                Some(callee) => {
                    let src = self.next_var();
                    self.with_temp("_ret"@, self.int_type(), span).with_flow(
                        FlowV::AddrOfFn { dst: src, callee },
                    ).with_flow(FlowV::Store { dst, src })
                },
                None => self,
            },
            PendV::RhsIdent { dst, name } => match self.named_fn(name) {
                Some(callee) => self.with_flow(FlowV::AddrOfFn { dst, callee }),
                None => match self.lookup(name) {
                    Some(src) => self.with_flow(FlowV::Copy { dst, src }),
                    None => self,
                },
            },
            PendV::AddrOfIdent { dst, name } => match self.named_fn(name) {
                Some(callee) => self.with_flow(FlowV::AddrOfFn { dst, callee }),
                None => match self.lookup(name) {
                    Some(src) => self.with_flow(FlowV::AddrOfVar { dst, src }),
                    None => self,
                },
            },
            PendV::ReturnIdent { owner, name } => match self.named_fn(name) {
                Some(callee) => self.with_returned(owner, ReturnV::AddrOfFn { callee }),
                None => match self.lookup(name) {
                    Some(src) => self.with_returned(owner, ReturnV::Copy { src }),
                    None => self,
                },
            },
            PendV::ReturnAddrOf { owner, name } => match self.named_fn(name) {
                Some(callee) => self.with_returned(owner, ReturnV::AddrOfFn { callee }),
                None => match self.lookup(name) {
                    Some(src) => self.with_returned(owner, ReturnV::AddrOfVar { src }),
                    None => self,
                },
            },
        }
    }

    /// After the first `n` uses of names that had been put off.
    pub open spec fn after_pendings(self, list: Seq<PendV>, n: int) -> LowerV
        decreases n,
    {
        if n <= 0 {
            self
        } else {
            self.after_pendings(list, n - 1).after_pending(list[n - 1])
        }
    }

    /// After all uses of names that had been put off.
    pub open spec fn settled(self) -> LowerV {
        LowerV { pending: Seq::empty(), ..self }.after_pendings(
            self.pending,
            self.pending.len() as int,
        )
    }
}

impl Lower {
    fn resolve_pending(&mut self, p: &PendingFnRef)
        requires
            old(self).wf(),
        ensures
            final(self).wf(),
            final(self)@ == old(self)@.after_pending(p@),
    {
        match p {
            PendingFnRef::FieldStore { dst, name, span } => {
                if let Some(callee) = self.resolve_function_named(name.as_str()) {
                    let type_id = self.type_int();
                    let src = self.add_temp("_ret", type_id, *span);
                    self.add_flow(FlowConstraint::AddrOfFn { dst: src, callee });
                    self.add_flow(FlowConstraint::Store { dst: *dst, src });
                }
            },
            PendingFnRef::RhsIdent { dst, name } => {
                if let Some(callee) = self.resolve_function_named(name.as_str()) {
                    self.add_flow(FlowConstraint::AddrOfFn { dst: *dst, callee });
                } else if let Some(src) = self.lookup_var(name.as_str()) {
                    self.add_flow(FlowConstraint::Copy { dst: *dst, src });
                }
            },
            PendingFnRef::AddrOfIdent { dst, name } => {
                if let Some(callee) = self.resolve_function_named(name.as_str()) {
                    self.add_flow(FlowConstraint::AddrOfFn { dst: *dst, callee });
                } else if let Some(src) = self.lookup_var(name.as_str()) {
                    self.add_flow(FlowConstraint::AddrOfVar { dst: *dst, src });
                }
            },
            PendingFnRef::ReturnIdent { owner, name } => {
                if let Some(callee) = self.resolve_function_named(name.as_str()) {
                    self.add_return(*owner, ReturnFlow::AddrOfFn { callee });
                } else if let Some(src) = self.lookup_var(name.as_str()) {
                    self.add_return(*owner, ReturnFlow::Copy { src });
                }
            },
            PendingFnRef::ReturnAddrOf { owner, name } => {
                if let Some(callee) = self.resolve_function_named(name.as_str()) {
                    self.add_return(*owner, ReturnFlow::AddrOfFn { callee });
                } else if let Some(src) = self.lookup_var(name.as_str()) {
                    self.add_return(*owner, ReturnFlow::AddrOfVar { src });
                }
            },
        }
    }

    /// Resolves the uses of names that had been put off: now everything that
    /// the unit declares is known.
    pub fn resolve_pending_fn_refs(&mut self)
        requires
            old(self).wf(),
        ensures
            final(self).wf(),
            final(self)@ == old(self)@.settled(),
    {
        let mut list: Vec<PendingFnRef> = Vec::new();
        assert(pends_view(list@) =~= Seq::empty());
        std::mem::swap(&mut list, &mut self.pending);
        let ghost start = self@;
        let ghost all = pends_view(list@);
        let mut i: usize = 0;
        while i < list.len()
            invariant
                i <= list@.len(),
                all == pends_view(list@),
                self.wf(),
                self@ == start.after_pendings(all, i as int),
            decreases list@.len() - i,
        {
            assert(all[i as int] == list@[i as int]@);
            self.resolve_pending(&list[i]);
            i = i + 1;
        }
    }
}

/// A report on a source that has syntax errors.
pub open spec fn syntax_report(path: Seq<char>) -> ReportV {
    ReportV {
        severity: DiagnosticSeverity::Warning,
        file: None,
        line: 0,
        message: "parse errors in "@ + path,
        stage: "parse"@,
    }
}

/// A report on a source that cannot be indexed.
pub open spec fn failure_report(message: Seq<char>) -> ReportV {
    ReportV {
        severity: DiagnosticSeverity::Error,
        file: None,
        line: 0,
        message,
        stage: "parse"@,
    }
}

/// A unit of which nothing has been lowered yet.
pub open spec fn unit_start(
    root: Seq<char>,
    path: Seq<char>,
    primary: Seq<char>,
    src: Seq<char>,
    lines: LineMapV,
    has_errors: bool,
) -> LowerV {
    let p = empty_program(root);
    let q = if has_errors {
        ProgramV { diagnostics: p.diagnostics.push(syntax_report(path)), ..p }
    } else {
        p
    };
    LowerV {
        p: ProgramV { symbols: q.symbols.with_file(path), ..q },
        src,
        lines,
        primary,
        file: FileId(0),
        is_cpp: is_cpp(path),
        current_fn: None,
        locals: Map::empty(),
        pending: Seq::empty(),
        ns: Seq::empty(),
        usings: Seq::empty(),
        class: None,
    }
}

/// What a unit comes to.
#[verifier::opaque]
pub open spec fn unit_program(
    root: Seq<char>,
    path: Seq<char>,
    primary: Seq<char>,
    parsed: ParsedV,
    lines: LineMapV,
) -> ProgramV {
    unit_start(root, path, primary, parsed.source, lines, parsed.has_errors).after_tree(
        parsed.tree,
    ).settled().p
}

/// Lowers a parsed source. `primary` is the path that the places in `lines`
/// give the source.
pub fn lower_unit(
    root: &str,
    path: &str,
    primary: &str,
    parsed: ParseResult,
    lines: LineMap,
) -> (r: Program)
    ensures
        r.wf(),
        r@ == unit_program(root@, path@, primary@, parsed@, lines@),
{
    proof {
        reveal(unit_program);
    }
    let mut program = Program::new(owned(root));
    if parsed.has_errors {
        program.add_diagnostic(
            Diagnostic {
                severity: DiagnosticSeverity::Warning,
                file: None,
                line: 0,
                message: cat2("parse errors in ", path),
                stage: owned("parse"),
            },
        );
    }
    let file = program.symbols.add_file(owned(path));
    let tree = parsed.tree;
    let ns: Vec<Option<String>> = Vec::new();
    let usings: Vec<String> = Vec::new();
    let pending: Vec<PendingFnRef> = Vec::new();
    assert(opts_view(ns@) =~= Seq::empty());
    assert(names_view(usings@) =~= Seq::empty());
    assert(pends_view(pending@) =~= Seq::empty());
    let mut lower = Lower {
        program,
        source: parsed.source,
        lines,
        primary: owned(primary),
        file,
        is_cpp: is_cpp_path(path),
        current_fn: None,
        locals: fx_name_map(),
        pending,
        ns,
        usings,
        class: None,
    };
    assert(lower@ == unit_start(
        root@,
        path@,
        primary@,
        parsed.source@,
        lines@,
        parsed.has_errors,
    ));
    lower.lower_tree(&tree);
    lower.resolve_pending_fn_refs();
    lower.program
}

/// The paths of files.
pub open spec fn paths_of(files: Seq<(FileId, Seq<char>)>) -> Seq<Seq<char>> {
    Seq::new(files.len(), |i: int| files[i].1)
}

/// What a program that was made of one source contributes.
pub open spec fn unit_of(path: Seq<char>, p: ProgramV) -> UnitV {
    UnitV {
        path,
        files: paths_of(p.symbols.files),
        types: p.types,
        functions: p.symbols.functions,
        variables: p.symbols.variables,
        call_sites: p.symbols.call_sites,
        flow: p.flow,
        fn_returns: p.fn_returns,
        diagnostics: p.diagnostics,
        anon_type_counter: p.anon_type_counter,
        inheritance: p.inheritance,
    }
}

fn paths_of_files(files: &Vec<FileInfo>) -> (r: Vec<String>)
    ensures
        names_view(r@) == paths_of(files_view(files@)),
{
    let ghost all = paths_of(files_view(files@));
    let mut out: Vec<String> = Vec::new();
    let mut i: usize = 0;
    assert(names_view(out@) =~= all.take(0));
    while i < files.len()
        invariant
            all == paths_of(files_view(files@)),
            i <= files@.len(),
            names_view(out@) == all.take(i as int),
        decreases files@.len() - i,
    {
        push_name(&mut out, files[i].path.clone());
        assert(all.take(i as int).push(all[i as int]) =~= all.take(i + 1));
        i = i + 1;
    }
    assert(all.take(i as int) =~= all);
    out
}

/// What a program that was made of one source contributes.
pub fn program_into_unit(path: &str, program: Program) -> (r: UnitIndex)
    requires
        program.wf(),
    ensures
        r.fn_returns.wf(),
        r@ == unit_of(path@, program@),
{
    let (files, functions, variables, call_sites) = program.symbols.into_parts();
    UnitIndex {
        path: owned(path),
        files: paths_of_files(&files),
        types: program.types,
        functions,
        variables,
        call_sites,
        flow: program.flow,
        fn_returns: program.fn_returns,
        diagnostics: program.diagnostics,
        anon_type_counter: program.anon_type_counter,
        inheritance: program.inheritance,
    }
}

/// What a source contributes that cannot be indexed: a report.
pub open spec fn failed_unit(path: Seq<char>, message: Seq<char>) -> UnitV {
    UnitV {
        path,
        files: Seq::empty(),
        types: empty_program(Seq::empty()).types,
        functions: Seq::empty(),
        variables: Seq::empty(),
        call_sites: Seq::empty(),
        flow: Seq::empty(),
        fn_returns: Seq::empty(),
        diagnostics: seq![failure_report(message)],
        anon_type_counter: 0,
        inheritance: Seq::empty(),
    }
}

/// What a source contributes that cannot be indexed: a report.
pub fn report_failure(path: &str, message: String) -> (r: UnitIndex)
    ensures
        r.fn_returns.wf(),
        r@ == failed_unit(path@, message@),
{
    let mut diagnostics: Vec<Diagnostic> = Vec::new();
    assert(reports_view(diagnostics@) =~= Seq::empty());
    push_report(
        &mut diagnostics,
        Diagnostic {
            severity: DiagnosticSeverity::Error,
            file: None,
            line: 0,
            message,
            stage: owned("parse"),
        },
    );
    let r = UnitIndex {
        path: owned(path),
        files: Vec::new(),
        types: TypeTable::new(),
        functions: Vec::new(),
        variables: Vec::new(),
        call_sites: Vec::new(),
        flow: Vec::new(),
        fn_returns: ReturnTable::new(),
        diagnostics,
        anon_type_counter: 0,
        inheritance: Vec::new(),
    };
    assert(r@.diagnostics =~= seq![failure_report(message@)]);
    assert(r@.files =~= Seq::empty());
    assert(r@.functions =~= Seq::empty());
    assert(r@.variables =~= Seq::empty());
    assert(r@.call_sites =~= Seq::empty());
    assert(r@.flow =~= Seq::empty());
    assert(r@.inheritance =~= Seq::empty());
    r
}

/// The language that a path's ending tells.
pub open spec fn language_of(path: Seq<char>) -> SourceLang {
    if is_cpp(path) {
        SourceLang::Cpp
    } else {
        SourceLang::C
    }
}

/// Whether a unit is what a source contributes, given what the preprocessor
/// and the parser make of it.
pub open spec fn is_unit_of(
    unit: UnitV,
    root: Seq<char>,
    path: Seq<char>,
    primary: Seq<char>,
    pre: Result<ResultV, ErrorV>,
) -> bool {
    match pre {
        Err(e) => unit == failed_unit(path, e.text()),
        Ok(res) => match tree_of(res.output, language_of(path)) {
            None => unit == failed_unit(path, "tree-sitter returned no tree"@),
            Some(raw) => exists|parsed: ParsedV|
                parsed.source == res.output && parsed.has_errors == raw.error && shaped(
                    parsed.tree,
                    raw,
                    res.output,
                ) && unit == #[trigger] unit_of(
                    path,
                    unit_program(root, path, primary, parsed, res.line_map),
                ),
        },
    }
}

/// Indexes a source of the tree that the options hold.
pub fn index_source_file(path: &str, root: &str, opts: &PreprocessOptions) -> (r: UnitIndex)
    ensures
        r.fn_returns.wf(),
        is_unit_of(
            r@,
            root@,
            path@,
            canonical_of(opts@.cfg.tree, path@),
            file_result(path@, opts@),
        ),
{
    let pre = match preprocess_file(path, opts) {
        Ok(p) => p,
        Err(e) => {
            return report_failure(path, e.text());
        },
    };
    match parse_source_with_lang(pre.output.as_str(), SourceLang::from_path(path)) {
        Ok(parsed) => {
            let primary = opts.tree.canonicalize(path);
            let program = lower_unit(root, path, primary.as_str(), parsed, pre.line_map);
            let unit = program_into_unit(path, program);
            assert(unit@ == unit_of(
                path@,
                unit_program(root@, path@, primary@, parsed@, pre.line_map@),
            ));
            proof {
                let raw = tree_of(pre@.output, language_of(path@))->0;
                assert(tree_of(pre@.output, language_of(path@)) == Some(raw));
                assert(parsed.source@ == pre@.output);
                assert(parsed.has_errors == raw.error);
                assert(shaped(parsed.tree@, raw, pre@.output));
                assert(unit@ == unit_of(
                    path@,
                    unit_program(root@, path@, primary@, parsed@, pre@.line_map),
                ));
            }
            assert(is_unit_of(unit@, root@, path@, primary@, Ok(pre@)));
            unit
        },
        Err(e) => report_failure(path, e),
    }
}

} // verus!
