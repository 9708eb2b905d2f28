//! Putting the parts of a program together.
//!
//! Each source is indexed by itself, with numbers of its own for files,
//! types, functions, variables and call sites. Merging gives everything a
//! number in the whole program, and drops what another source has brought
//! already.

use crate::collections::{
    fx_get, fx_insert, fx_map, fx_set, fx_set_contains, fx_set_insert, has_key, index_entries,
    index_get, index_insert, index_map, value_of, with_entry,
};
use crate::ir::diagnostic::{reports_view, Diagnostic, ReportV};
use crate::ir::flow::{
    flows_view, push_flow, returns_view, FlowConstraint, FlowV, ReturnFlow, ReturnV,
};
use crate::ir::ids::{CallSiteId, FileId, FnId, Span, TypeId, VarId};
use crate::ir::program::{
    pairs_view, with_edge, with_entry_for, with_return, DedupV, MergeDedup, Program, ProgramV,
    ReturnTable,
};
use crate::ir::symbol::{
    fns_view, next_number, sites_view, vars_view, CallSite, FnV, Function, SiteV, SymbolsV, VarV,
    Variable,
};
use crate::ir::types::{
    clone_desc, clone_fields, fields_view_index, DescV, TableV, TypeDesc, TypeTable, TypeV,
};
use crate::text::{names_view, take_push};
use indexmap::IndexMap;
use rustc_hash::{FxHashMap, FxHashSet};
use std::hash::RandomState;
use vstd::prelude::*;

verus! {

/// What one source contributes.
pub struct UnitIndex {
    pub path: String,
    /// The files of the source: itself, and what it draws in. A file's number
    /// in the source is its position here.
    pub files: Vec<String>,
    pub types: TypeTable,
    pub functions: Vec<Function>,
    pub variables: Vec<Variable>,
    pub call_sites: Vec<CallSite>,
    pub flow: Vec<FlowConstraint>,
    pub fn_returns: ReturnTable,
    pub diagnostics: Vec<Diagnostic>,
    pub anon_type_counter: u32,
    /// Which class derives from which.
    pub inheritance: Vec<(String, String)>,
}

/// The mathematical form of a [`UnitIndex`].
pub struct UnitV {
    pub path: Seq<char>,
    pub files: Seq<Seq<char>>,
    pub types: TableV,
    pub functions: Seq<FnV>,
    pub variables: Seq<VarV>,
    pub call_sites: Seq<SiteV>,
    pub flow: Seq<FlowV>,
    pub fn_returns: Seq<(u32, Seq<ReturnV>)>,
    pub diagnostics: Seq<ReportV>,
    pub anon_type_counter: u32,
    pub inheritance: Seq<(Seq<char>, Seq<char>)>,
}

impl View for UnitIndex {
    type V = UnitV;

    open spec fn view(&self) -> UnitV {
        UnitV {
            path: self.path@,
            files: names_view(self.files@),
            types: self.types@,
            functions: fns_view(self.functions@),
            variables: vars_view(self.variables@),
            call_sites: sites_view(self.call_sites@),
            flow: flows_view(self.flow@),
            fn_returns: self.fn_returns@,
            diagnostics: reports_view(self.diagnostics@),
            anon_type_counter: self.anon_type_counter,
            inheritance: pairs_view(self.inheritance@),
        }
    }
}

impl TableV {
    /// With a type of another table: a structure or union with its fields,
    /// any other type as it is.
    pub open spec fn with_type(self, d: DescV) -> TableV {
        match d {
            DescV::Struct { name, fields } => if fields.len() > 0 {
                self.defined(d, fields, false)
            } else {
                self.interned(d)
            },
            DescV::Union { name, fields } => if fields.len() > 0 {
                self.defined(d, fields, true)
            } else {
                self.interned(d)
            },
            _ => self.interned(d),
        }
    }

    /// With the first `n` types of another table.
    pub open spec fn with_types(self, types: Seq<TypeV>, n: int) -> TableV
        decreases n,
    {
        if n <= 0 {
            self
        } else {
            self.with_types(types, n - 1).with_type(types[n - 1].desc)
        }
    }

    /// What the first `n` types of another table are called here.
    pub open spec fn type_map(self, types: Seq<TypeV>, n: int) -> Map<u32, TypeId>
        decreases n,
    {
        if n <= 0 {
            Map::empty()
        } else {
            self.type_map(types, n - 1).insert(
                types[n - 1].id.0,
                self.with_types(types, n - 1).interned(types[n - 1].desc).id_of(
                    types[n - 1].desc,
                ),
            )
        }
    }

    /// With those of the first `n` aliases whose names are not taken.
    pub open spec fn with_aliases(self, aliases: Seq<(Seq<char>, DescV)>, n: int) -> TableV
        decreases n,
    {
        if n <= 0 {
            self
        } else {
            let t = self.with_aliases(aliases, n - 1);
            if t.alias(aliases[n - 1].0, 0) is None {
                TableV { aliases: t.aliases.push(aliases[n - 1]), ..t }
            } else {
                t
            }
        }
    }

    /// With another table.
    pub open spec fn merged(self, other: TableV) -> TableV {
        self.with_types(other.types, other.types.len() as int).with_aliases(
            other.aliases,
            other.aliases.len() as int,
        )
    }
}

impl SymbolsV {
    /// With the first `n` paths.
    pub open spec fn with_paths(self, paths: Seq<Seq<char>>, n: int) -> SymbolsV
        decreases n,
    {
        if n <= 0 {
            self
        } else {
            self.with_paths(paths, n - 1).with_path(paths[n - 1])
        }
    }

    /// The files of the first `n` paths.
    pub open spec fn files_of(self, paths: Seq<Seq<char>>, n: int) -> Seq<FileId>
        decreases n,
    {
        if n <= 0 {
            Seq::empty()
        } else {
            self.files_of(paths, n - 1).push(
                self.with_paths(paths, n).file_of(paths[n - 1]),
            )
        }
    }

    /// With the first `n` files as headers of another.
    pub open spec fn with_headers(self, tu: FileId, files: Seq<FileId>, n: int) -> SymbolsV
        decreases n,
    {
        if n <= 0 {
            self
        } else {
            self.with_headers(tu, files, n - 1).with_header(tu, files[n - 1])
        }
    }
}

/// Which edges a hierarchy has once the first `n` of others are in it.
pub open spec fn with_edges(
    edges: Seq<(Seq<char>, Seq<char>)>,
    more: Seq<(Seq<char>, Seq<char>)>,
    n: int,
) -> Seq<(Seq<char>, Seq<char>)>
    decreases n,
{
    if n <= 0 {
        edges
    } else {
        with_edge(with_edges(edges, more, n - 1), more[n - 1].0, more[n - 1].1)
    }
}

/// A merge under way.
#[verifier::ext_equal]
pub struct MergeV {
    pub program: ProgramV,
    pub types: Map<u32, TypeId>,
    pub files: Seq<FileId>,
    pub primary: FileId,
    /// What the functions of the source are called in the program.
    pub fns: Seq<(u32, u32)>,
    /// The functions that another source has brought already.
    pub dropped: Set<u32>,
    pub vars: Map<u32, u32>,
}

/// The variables that a flow speaks of.
pub open spec fn vars_of(flow: FlowV) -> Seq<VarId> {
    match flow {
        FlowV::Copy { dst, src } => seq![dst, src],
        FlowV::AddrOfVar { dst, src } => seq![dst, src],
        FlowV::AddrOfFn { dst, callee } => seq![dst],
        FlowV::Load { dst, src } => seq![dst, src],
        FlowV::Store { dst, src } => seq![dst, src],
        FlowV::GepField { dst, base, field, field_name } => seq![dst, base],
        FlowV::ArrayFnMember { array, callee } => seq![array],
        FlowV::CallReturn { dst, callee_name } => seq![dst],
        FlowV::CallReturnIndirect { dst, callee_var } => seq![dst, callee_var],
        FlowV::NewHeap { dst } => seq![dst],
        FlowV::StringConst { dst, value } => seq![dst],
    }
}

/// The variables that a return flow speaks of.
pub open spec fn vars_of_return(flow: ReturnV) -> Seq<VarId> {
    match flow {
        ReturnV::AddrOfVar { src } => seq![src],
        ReturnV::Copy { src } => seq![src],
        ReturnV::AddrOfFn { callee } => Seq::empty(),
        ReturnV::Call { callee_name } => Seq::empty(),
    }
}

impl MergeV {
    /// What a file of the source is in the program.
    pub open spec fn file(self, f: FileId) -> FileId {
        if f.0 < self.files.len() {
            self.files[f.0 as int]
        } else {
            self.primary
        }
    }

    pub open spec fn ty(self, t: TypeId) -> TypeId {
        if self.types.contains_key(t.0) {
            self.types[t.0]
        } else {
            t
        }
    }

    /// What a function of the source is in the program, if it is there.
    pub open spec fn known_fn(self, f: FnId) -> Option<FnId> {
        if has_key(self.fns, f.0) {
            Some(FnId(value_of(self.fns, f.0)))
        } else {
            None
        }
    }

    pub open spec fn func(self, f: FnId) -> FnId {
        match self.known_fn(f) {
            Some(g) => g,
            None => f,
        }
    }

    /// What a variable of the source is in the program, if it is there.
    pub open spec fn known_var(self, v: VarId) -> Option<VarId> {
        if self.vars.contains_key(v.0) {
            Some(VarId(self.vars[v.0]))
        } else {
            None
        }
    }

    pub open spec fn var(self, v: VarId) -> VarId {
        match self.known_var(v) {
            Some(w) => w,
            None => v,
        }
    }

    pub open spec fn span(self, s: Span) -> Span {
        Span { file: self.file(s.file), ..s }
    }

    /// A function of the source, with its numbers in the program.
    pub open spec fn renumbered_fn(self, f: FnV) -> FnV {
        FnV {
            id: FnId(self.program.symbols.next_fn),
            span: self.span(f.span),
            file: self.file(f.span.file),
            return_type: self.ty(f.return_type),
            params: self.known_vars(f.params, f.params.len() as int),
            locals: self.known_vars(f.locals, f.locals.len() as int),
            ..f
        }
    }

    /// Where a function of the source comes from: its file in the program, its
    /// line and its name.
    pub open spec fn origin(self, f: FnV) -> (u32, u32, Seq<char>) {
        (self.file(f.span.file).0, f.span.line, f.name)
    }

    /// Which of the first `n` functions of the source is the first from a
    /// place.
    pub open spec fn first_copies(self, fns: Seq<FnV>, n: int) -> Map<(u32, u32, Seq<char>), u32>
        decreases n,
    {
        if n <= 0 {
            Map::empty()
        } else {
            let before = self.first_copies(fns, n - 1);
            let key = self.origin(fns[n - 1]);
            if before.contains_key(key) {
                before
            } else {
                before.insert(key, fns[n - 1].id.0)
            }
        }
    }

    /// Those of the first `n` functions of the source that have been brought
    /// from their places before, by another source or by this one.
    pub open spec fn repeats(self, fns: Seq<FnV>, n: int) -> Set<u32>
        decreases n,
    {
        if n <= 0 {
            Set::empty()
        } else {
            let before = self.repeats(fns, n - 1);
            let key = self.origin(fns[n - 1]);
            if self.program.dedup.fns.contains_key(key) || self.first_copies(
                fns,
                n - 1,
            ).contains_key(key) {
                before.insert(fns[n - 1].id.0)
            } else {
                before
            }
        }
    }

    /// With a function of the source: the one that has been brought from the
    /// same place under the same name, which stays as it is, or a new one.
    pub open spec fn with_fn(self, f: FnV) -> MergeV {
        let key = self.origin(f);
        if self.program.dedup.fns.contains_key(key) {
            MergeV {
                fns: with_entry(self.fns, f.id.0, self.program.dedup.fns[key]),
                ..self
            }
        } else {
            let counted = SymbolsV {
                next_fn: next_number(self.program.symbols.next_fn),
                ..self.program.symbols
            };
            let (symbols, id) = counted.with_function(self.renumbered_fn(f));
            MergeV {
                program: ProgramV {
                    symbols,
                    dedup: DedupV {
                        fns: self.program.dedup.fns.insert(key, id.0),
                        ..self.program.dedup
                    },
                    ..self.program
                },
                fns: with_entry(self.fns, f.id.0, id.0),
                ..self
            }
        }
    }

    pub open spec fn with_fns(self, fns: Seq<FnV>, n: int) -> MergeV
        decreases n,
    {
        if n <= 0 {
            self
        } else {
            self.with_fns(fns, n - 1).with_fn(fns[n - 1])
        }
    }

    /// With a variable of the source, unless it belongs to a function that has
    /// been dropped. The variable keeps the number that its function has in
    /// the source.
    pub open spec fn with_var(self, v: VarV) -> MergeV {
        if v.fn_id is Some && self.dropped.contains((v.fn_id->0).0) {
            self
        } else {
            let id = VarId(self.program.symbols.next_var);
            let counted = SymbolsV {
                next_var: next_number(self.program.symbols.next_var),
                ..self.program.symbols
            };
            let w = VarV {
                id,
                type_id: self.ty(v.type_id),
                span: self.span(v.span),
                ..v
            };
            MergeV {
                program: ProgramV { symbols: counted.with_variable(w), ..self.program },
                vars: self.vars.insert(v.id.0, id.0),
                ..self
            }
        }
    }

    pub open spec fn with_vars(self, vars: Seq<VarV>, n: int) -> MergeV
        decreases n,
    {
        if n <= 0 {
            self
        } else {
            self.with_vars(vars, n - 1).with_var(vars[n - 1])
        }
    }

    /// Those of the first `n` variables that are there, with their numbers.
    pub open spec fn known_vars(self, vars: Seq<VarId>, n: int) -> Seq<VarId>
        decreases n,
    {
        if n <= 0 {
            Seq::empty()
        } else {
            match self.known_var(vars[n - 1]) {
                Some(w) => self.known_vars(vars, n - 1).push(w),
                None => self.known_vars(vars, n - 1),
            }
        }
    }

    /// A variable of the source, with the number that its function has in the
    /// program.
    pub open spec fn owned_var(self, v: VarV) -> VarV {
        VarV {
            fn_id: match v.fn_id {
                Some(f) => self.known_fn(f),
                None => None,
            },
            ..v
        }
    }

    /// With the functions of the variables from `from` up to `n` renumbered.
    pub open spec fn with_owners(self, from: int, n: int) -> MergeV {
        let vars = self.program.symbols.variables;
        MergeV {
            program: ProgramV {
                symbols: SymbolsV {
                    variables: Seq::new(
                        vars.len(),
                        |i: int|
                            if from <= i < n {
                                self.owned_var(vars[i])
                            } else {
                                vars[i]
                            },
                    ),
                    ..self.program.symbols
                },
                ..self.program
            },
            ..self
        }
    }

    /// Those of the first `n` arguments that are there, with their numbers.
    pub open spec fn var_args(self, args: Seq<(u32, VarId)>, n: int) -> Seq<(u32, VarId)>
        decreases n,
    {
        if n <= 0 {
            Seq::empty()
        } else {
            match self.known_var(args[n - 1].1) {
                Some(w) => self.var_args(args, n - 1).push((args[n - 1].0, w)),
                None => self.var_args(args, n - 1),
            }
        }
    }

    pub open spec fn fn_args(self, args: Seq<(u32, FnId)>, n: int) -> Seq<(u32, FnId)>
        decreases n,
    {
        if n <= 0 {
            Seq::empty()
        } else {
            match self.known_fn(args[n - 1].1) {
                Some(g) => self.fn_args(args, n - 1).push((args[n - 1].0, g)),
                None => self.fn_args(args, n - 1),
            }
        }
    }

    /// A call site of the source, with its numbers in the program.
    pub open spec fn renumbered_site(self, c: SiteV) -> SiteV {
        SiteV {
            id: CallSiteId(self.program.symbols.next_call),
            caller: self.func(c.caller),
            callee_fn_id: match c.callee_fn_id {
                Some(f) => self.known_fn(f),
                None => None,
            },
            callee_var: match c.callee_var {
                Some(v) => self.known_var(v),
                None => None,
            },
            return_dst: match c.return_dst {
                Some(v) => self.known_var(v),
                None => None,
            },
            var_args: self.var_args(c.var_args, c.var_args.len() as int),
            fn_args: self.fn_args(c.fn_args, c.fn_args.len() as int),
            span: self.span(c.span),
            ..c
        }
    }

    /// With a call site of the source, unless its caller has been dropped or
    /// it has been brought already.
    pub open spec fn with_site(self, c: SiteV) -> MergeV {
        let key = (self.file(c.span.file).0, c.span.line, c.span.col, c.callee_name);
        if self.dropped.contains(c.caller.0) || self.program.dedup.sites.contains_key(key) {
            self
        } else {
            let id = self.program.symbols.next_call;
            MergeV {
                program: ProgramV {
                    symbols: SymbolsV {
                        next_call: next_number(id),
                        call_sites: self.program.symbols.call_sites.push(self.renumbered_site(c)),
                        ..self.program.symbols
                    },
                    dedup: DedupV {
                        sites: self.program.dedup.sites.insert(key, id),
                        ..self.program.dedup
                    },
                    ..self.program
                },
                ..self
            }
        }
    }

    pub open spec fn with_sites(self, sites: Seq<SiteV>, n: int) -> MergeV
        decreases n,
    {
        if n <= 0 {
            self
        } else {
            self.with_sites(sites, n - 1).with_site(sites[n - 1])
        }
    }

    /// Whether all of the variables are there.
    pub open spec fn knows(self, vars: Seq<VarId>) -> bool {
        forall|i: int| 0 <= i < vars.len() ==> self.vars.contains_key((#[trigger] vars[i]).0)
    }

    /// A flow of the source, with its numbers in the program.
    pub open spec fn renumbered_flow(self, flow: FlowV) -> FlowV {
        match flow {
            FlowV::Copy { dst, src } => FlowV::Copy { dst: self.var(dst), src: self.var(src) },
            FlowV::AddrOfVar { dst, src } => FlowV::AddrOfVar {
                dst: self.var(dst),
                src: self.var(src),
            },
            FlowV::AddrOfFn { dst, callee } => FlowV::AddrOfFn {
                dst: self.var(dst),
                callee: self.func(callee),
            },
            FlowV::Load { dst, src } => FlowV::Load { dst: self.var(dst), src: self.var(src) },
            FlowV::Store { dst, src } => FlowV::Store { dst: self.var(dst), src: self.var(src) },
            FlowV::GepField { dst, base, field, field_name } => FlowV::GepField {
                dst: self.var(dst),
                base: self.var(base),
                field,
                field_name,
            },
            FlowV::ArrayFnMember { array, callee } => FlowV::ArrayFnMember {
                array: self.var(array),
                callee: self.func(callee),
            },
            FlowV::CallReturn { dst, callee_name } => FlowV::CallReturn {
                dst: self.var(dst),
                callee_name,
            },
            FlowV::CallReturnIndirect { dst, callee_var } => FlowV::CallReturnIndirect {
                dst: self.var(dst),
                callee_var: self.var(callee_var),
            },
            FlowV::NewHeap { dst } => FlowV::NewHeap { dst: self.var(dst) },
            FlowV::StringConst { dst, value } => FlowV::StringConst { dst: self.var(dst), value },
        }
    }

    /// The flows of the program, with those of the first `n` of the source
    /// whose variables are there.
    pub open spec fn flows(self, flows: Seq<FlowV>, n: int) -> Seq<FlowV>
        decreases n,
    {
        if n <= 0 {
            self.program.flow
        } else if self.knows(vars_of(flows[n - 1])) {
            self.flows(flows, n - 1).push(self.renumbered_flow(flows[n - 1]))
        } else {
            self.flows(flows, n - 1)
        }
    }

    pub open spec fn renumbered_return(self, flow: ReturnV) -> ReturnV {
        match flow {
            ReturnV::AddrOfVar { src } => ReturnV::AddrOfVar { src: self.var(src) },
            ReturnV::AddrOfFn { callee } => ReturnV::AddrOfFn { callee: self.func(callee) },
            ReturnV::Copy { src } => ReturnV::Copy { src: self.var(src) },
            ReturnV::Call { callee_name } => ReturnV::Call { callee_name },
        }
    }

    /// `table` with the first `n` things that a function returns.
    pub open spec fn with_returned(
        self,
        table: Seq<(u32, Seq<ReturnV>)>,
        f: u32,
        flows: Seq<ReturnV>,
        n: int,
    ) -> Seq<(u32, Seq<ReturnV>)>
        decreases n,
    {
        if n <= 0 {
            with_entry_for(table, f)
        } else {
            let t = self.with_returned(table, f, flows, n - 1);
            if self.knows(vars_of_return(flows[n - 1])) {
                with_return(t, f, self.renumbered_return(flows[n - 1]), 0)
            } else {
                t
            }
        }
    }

    /// What functions return, with the first `n` functions of the source.
    pub open spec fn fn_returns(self, table: Seq<(u32, Seq<ReturnV>)>, n: int) -> Seq<
        (u32, Seq<ReturnV>),
    >
        decreases n,
    {
        if n <= 0 {
            self.program.fn_returns
        } else {
            let t = self.fn_returns(table, n - 1);
            let (f, flows) = table[n - 1];
            if self.dropped.contains(f) {
                t
            } else {
                match self.known_fn(FnId(f)) {
                    Some(g) => self.with_returned(t, g.0, flows, flows.len() as int),
                    None => t,
                }
            }
        }
    }
}

impl ProgramV {
    /// A merge that begins: reports, classes, types and files are in, and it
    /// is known which functions are to be dropped.
    pub open spec fn merging(self, unit: UnitV) -> MergeV {
        let m = self.starting(unit);
        MergeV { dropped: m.repeats(unit.functions, unit.functions.len() as int), ..m }
    }

    /// A merge that starts: reports, classes, types and files are in.
    pub open spec fn starting(self, unit: UnitV) -> MergeV {
        let s1 = self.symbols.with_paths(unit.files, unit.files.len() as int);
        let files = self.symbols.files_of(unit.files, unit.files.len() as int);
        let s2 = s1.with_path(unit.path);
        let primary = s2.file_of(unit.path);
        MergeV {
            program: ProgramV {
                diagnostics: self.diagnostics + unit.diagnostics,
                anon_type_counter: if self.anon_type_counter >= unit.anon_type_counter {
                    self.anon_type_counter
                } else {
                    unit.anon_type_counter
                },
                inheritance: with_edges(
                    self.inheritance,
                    unit.inheritance,
                    unit.inheritance.len() as int,
                ),
                types: self.types.merged(unit.types),
                symbols: s2.with_headers(primary, files, files.len() as int),
                ..self
            },
            types: self.types.type_map(unit.types.types, unit.types.types.len() as int),
            files,
            primary,
            fns: Seq::empty(),
            dropped: Set::empty(),
            vars: Map::empty(),
        }
    }

    /// With what a source contributes.
    pub open spec fn merged(self, unit: UnitV) -> ProgramV {
        let m1 = self.merging(unit).with_vars(unit.variables, unit.variables.len() as int);
        let m2 = m1.with_fns(unit.functions, unit.functions.len() as int);
        let m3 = m2.with_owners(
            self.symbols.variables.len() as int,
            m2.program.symbols.variables.len() as int,
        );
        let m4 = m3.with_sites(unit.call_sites, unit.call_sites.len() as int);
        ProgramV {
            flow: m4.flows(unit.flow, unit.flow.len() as int),
            fn_returns: m4.fn_returns(unit.fn_returns, unit.fn_returns.len() as int),
            ..m4.program
        }
    }

}

/// What the numbers of a source are in the program.
struct Merge {
    types: FxHashMap<u32, TypeId>,
    files: Vec<FileId>,
    primary: FileId,
    fns: IndexMap<u32, u32, RandomState>,
    dropped: FxHashSet<u32>,
    vars: FxHashMap<u32, u32>,
}

impl Merge {
    spec fn model(&self, program: ProgramV) -> MergeV {
        MergeV {
            program,
            types: self.types@,
            files: self.files@,
            primary: self.primary,
            fns: index_entries(self.fns),
            dropped: self.dropped@,
            vars: self.vars@,
        }
    }

    fn file(&self, f: FileId) -> (r: FileId)
        ensures
            forall|p: ProgramV| r == #[trigger] self.model(p).file(f),
    {
        if (f.0 as usize) < self.files.len() {
            self.files[f.0 as usize]
        } else {
            self.primary
        }
    }

    fn ty(&self, t: TypeId) -> (r: TypeId)
        ensures
            forall|p: ProgramV| r == #[trigger] self.model(p).ty(t),
    {
        match fx_get(&self.types, t.0) {
            Some(u) => *u,
            None => t,
        }
    }

    fn known_fn(&self, f: FnId) -> (r: Option<FnId>)
        ensures
            forall|p: ProgramV| r == #[trigger] self.model(p).known_fn(f),
    {
        match index_get(&self.fns, f.0) {
            Some(g) => Some(FnId(g)),
            None => None,
        }
    }

    fn func(&self, f: FnId) -> (r: FnId)
        ensures
            forall|p: ProgramV| r == #[trigger] self.model(p).func(f),
    {
        match index_get(&self.fns, f.0) {
            Some(g) => FnId(g),
            None => f,
        }
    }

    fn known_var(&self, v: VarId) -> (r: Option<VarId>)
        ensures
            forall|p: ProgramV| r == #[trigger] self.model(p).known_var(v),
    {
        match fx_get(&self.vars, v.0) {
            Some(w) => Some(VarId(*w)),
            None => None,
        }
    }

    fn var(&self, v: VarId) -> (r: VarId)
        ensures
            forall|p: ProgramV| r == #[trigger] self.model(p).var(v),
    {
        match fx_get(&self.vars, v.0) {
            Some(w) => VarId(*w),
            None => v,
        }
    }

    fn knows(&self, v: VarId) -> (r: bool)
        ensures
            r == self.vars@.contains_key(v.0),
    {
        fx_get(&self.vars, v.0).is_some()
    }

    /// Finds the functions that have been brought before.
    fn find_repeats(&self, program: &Program, fns: &Vec<Function>) -> (r: FxHashSet<u32>)
        ensures
            r@ == self.model(program@).repeats(fns_view(fns@), fns@.len() as int),
    {
        let mut seen = MergeDedup::new();
        let mut out: FxHashSet<u32> = fx_set();
        let ghost m = self.model(program@);
        let ghost all = fns_view(fns@);
        let mut i: usize = 0;
        while i < fns.len()
            invariant
                i <= fns@.len(),
                all == fns_view(fns@),
                m == self.model(program@),
                seen@.fns == m.first_copies(all, i as int),
                out@ == m.repeats(all, i as int),
            decreases fns@.len() - i,
        {
            let f = &fns[i];
            assert(all[i as int] == f@);
            let file = self.file(f.span.file);
            assert(file == m.file(f.span.file));
            let known = program.dedup.function_at(file, f.span.line, f.name.as_str()).is_some();
            let repeated = seen.function_at(file, f.span.line, f.name.as_str()).is_some();
            if known || repeated {
                fx_set_insert(&mut out, f.id.0);
            }
            if !repeated {
                seen.add_function(file, f.span.line, f.name.as_str(), f.id);
            }
            i = i + 1;
        }
        out
    }

    fn add_fn(&mut self, program: &mut Program, f: &Function)
        ensures
            final(self).model(final(program)@) == old(self).model(old(program)@).with_fn(f@),
            old(program).wf() ==> final(program).wf(),
    {
        let file = self.file(f.span.file);
        let ghost m0 = self.model(program@);
        assert(file == m0.file(f.span.file));
        match program.dedup.function_at(file, f.span.line, f.name.as_str()) {
            Some(canonical) => {
                index_insert(&mut self.fns, f.id.0, canonical.0);
            },
            None => {
                let return_type = self.ty(f.return_type);
                assert(return_type == m0.ty(f.return_type));
                let params = self.known_vars(&f.params);
                let locals = self.known_vars(&f.locals);
                assert(params@ == m0.known_vars(f.params@, f.params@.len() as int));
                assert(locals@ == m0.known_vars(f.locals@, f.locals@.len() as int));
                let id = program.symbols.alloc_fn_id();
                let g = Function {
                    id,
                    name: f.name.clone(),
                    linkage: f.linkage,
                    return_type,
                    params,
                    locals,
                    span: Span { file, line: f.span.line, col: f.span.col },
                    file,
                    is_defined: f.is_defined,
                    is_virtual: f.is_virtual,
                    is_cpp: f.is_cpp,
                };
                assert(g@ =~= m0.renumbered_fn(f@));
                let merged = program.symbols.add_function(g);
                index_insert(&mut self.fns, f.id.0, merged.0);
                program.dedup.add_function(file, f.span.line, f.name.as_str(), merged);
                assert(self.model(program@) =~= m0.with_fn(f@));
            },
        }
    }

    fn add_var(&mut self, program: &mut Program, v: &Variable)
        ensures
            final(self).model(final(program)@) == old(self).model(old(program)@).with_var(v@),
            old(program).wf() ==> final(program).wf(),
    {
        let ghost m0 = self.model(program@);
        if let Some(f) = v.fn_id {
            if fx_set_contains(&self.dropped, f.0) {
                return ;
            }
        }
        let type_id = self.ty(v.type_id);
        assert(type_id == m0.ty(v.type_id));
        let file = self.file(v.span.file);
        assert(file == m0.file(v.span.file));
        let id = program.symbols.alloc_var_id();
        program.symbols.add_variable(
            Variable {
                id,
                name: v.name.clone(),
                type_id,
                storage: v.storage,
                fn_id: v.fn_id,
                param_index: v.param_index,
                span: Span { file, line: v.span.line, col: v.span.col },
                is_pointer: v.is_pointer,
            },
        );
        fx_insert(&mut self.vars, v.id.0, id.0);
        assert(self.model(program@) =~= m0.with_var(v@));
    }

    fn known_vars(&self, vars: &Vec<VarId>) -> (r: Vec<VarId>)
        ensures
            forall|p: ProgramV|
                r@ == #[trigger] self.model(p).known_vars(vars@, vars@.len() as int),
    {
        let mut out: Vec<VarId> = Vec::new();
        let mut i: usize = 0;
        assert(out@ =~= Seq::empty());
        while i < vars.len()
            invariant
                i <= vars@.len(),
                forall|p: ProgramV| out@ == #[trigger] self.model(p).known_vars(vars@, i as int),
            decreases vars@.len() - i,
        {
            let w = self.known_var(vars[i]);
            let ghost before = out@;
            if let Some(x) = w {
                out.push(x);
            }
            assert forall|p: ProgramV| out@ == #[trigger] self.model(p).known_vars(
                vars@,
                i + 1,
            ) by {
                assert(before == self.model(p).known_vars(vars@, i as int));
                assert(w == self.model(p).known_var(vars@[i as int]));
            }
            i = i + 1;
        }
        out
    }

    /// Renumbers the functions of the variables from a position on.
    fn own_vars(&self, program: &mut Program, from: usize)
        requires
            from <= old(program)@.symbols.variables.len(),
        ensures
            self.model(final(program)@) == self.model(old(program)@).with_owners(
                from as int,
                old(program)@.symbols.variables.len() as int,
            ),
            old(program).wf() ==> final(program).wf(),
    {
        let ghost m0 = self.model(program@);
        let count = program.symbols.variable_count();
        let mut i: usize = from;
        assert(m0.with_owners(from as int, from as int).program.symbols.variables
            =~= program@.symbols.variables);
        while i < count
            invariant
                from <= i <= count,
                count == m0.program.symbols.variables.len(),
                m0 == self.model(old(program)@),
                self.model(program@) == m0.with_owners(from as int, i as int),
                old(program).wf() ==> program.wf(),
            decreases count - i,
        {
            let v = program.symbols.variable_at(i);
            assert(v@ == m0.program.symbols.variables[i as int]);
            if let Some(f) = v.fn_id {
                let g = self.known_fn(f);
                assert(g == m0.known_fn(f));
                program.symbols.set_owner(i, g);
            }
            assert(self.model(program@).program.symbols.variables =~= m0.with_owners(
                from as int,
                i + 1,
            ).program.symbols.variables);
            i = i + 1;
        }
    }

    fn var_args(&self, args: &Vec<(u32, VarId)>) -> (r: Vec<(u32, VarId)>)
        ensures
            forall|p: ProgramV| r@ == #[trigger] self.model(p).var_args(args@, args@.len() as int),
    {
        let mut out: Vec<(u32, VarId)> = Vec::new();
        let mut i: usize = 0;
        assert(out@ =~= Seq::empty());
        while i < args.len()
            invariant
                i <= args@.len(),
                forall|p: ProgramV| out@ == #[trigger] self.model(p).var_args(args@, i as int),
            decreases args@.len() - i,
        {
            let w = self.known_var(args[i].1);
            let ghost before = out@;
            if let Some(x) = w {
                out.push((args[i].0, x));
            }
            assert forall|p: ProgramV| out@ == #[trigger] self.model(p).var_args(args@, i + 1) by {
                assert(before == self.model(p).var_args(args@, i as int));
                assert(w == self.model(p).known_var(args@[i as int].1));
            }
            i = i + 1;
        }
        out
    }

    fn fn_args(&self, args: &Vec<(u32, FnId)>) -> (r: Vec<(u32, FnId)>)
        ensures
            forall|p: ProgramV| r@ == #[trigger] self.model(p).fn_args(args@, args@.len() as int),
    {
        let mut out: Vec<(u32, FnId)> = Vec::new();
        let mut i: usize = 0;
        assert(out@ =~= Seq::empty());
        while i < args.len()
            invariant
                i <= args@.len(),
                forall|p: ProgramV| out@ == #[trigger] self.model(p).fn_args(args@, i as int),
            decreases args@.len() - i,
        {
            let g = self.known_fn(args[i].1);
            let ghost before = out@;
            if let Some(x) = g {
                out.push((args[i].0, x));
            }
            assert forall|p: ProgramV| out@ == #[trigger] self.model(p).fn_args(args@, i + 1) by {
                assert(before == self.model(p).fn_args(args@, i as int));
                assert(g == self.model(p).known_fn(args@[i as int].1));
            }
            i = i + 1;
        }
        out
    }

    fn add_site(&self, program: &mut Program, c: &CallSite)
        ensures
            self.model(final(program)@) == self.model(old(program)@).with_site(c@),
            old(program).wf() ==> final(program).wf(),
    {
        let ghost m0 = self.model(program@);
        if fx_set_contains(&self.dropped, c.caller.0) {
            return ;
        }
        let file = self.file(c.span.file);
        assert(file == m0.file(c.span.file));
        if program.dedup.site_at(file, c.span.line, c.span.col, c.callee_name.as_str()).is_some() {
            return ;
        }
        let caller = self.func(c.caller);
        assert(caller == m0.func(c.caller));
        let callee_fn_id = match c.callee_fn_id {
            Some(f) => {
                let g = self.known_fn(f);
                assert(g == m0.known_fn(f));
                g
            },
            None => None,
        };
        let callee_var = match c.callee_var {
            Some(v) => {
                let w = self.known_var(v);
                assert(w == m0.known_var(v));
                w
            },
            None => None,
        };
        let return_dst = match c.return_dst {
            Some(v) => {
                let w = self.known_var(v);
                assert(w == m0.known_var(v));
                w
            },
            None => None,
        };
        let var_args = self.var_args(&c.var_args);
        let fn_args = self.fn_args(&c.fn_args);
        assert(var_args@ == m0.var_args(c.var_args@, c.var_args@.len() as int));
        assert(fn_args@ == m0.fn_args(c.fn_args@, c.fn_args@.len() as int));
        let id = program.symbols.alloc_call_id();
        let site = CallSite {
            id,
            caller,
            callee_name: c.callee_name.clone(),
            callee_var,
            callee_fn_id,
            var_args,
            fn_args,
            addr_of_member_args: clone_numbers(&c.addr_of_member_args),
            span: Span { file, line: c.span.line, col: c.span.col },
            is_direct: c.is_direct,
            receiver_class: match &c.receiver_class {
                Some(s) => Some(s.clone()),
                None => None,
            },
            return_dst,
        };
        assert(site@ =~= m0.renumbered_site(c@));
        program.symbols.add_call_site(site);
        program.dedup.add_site(file, c.span.line, c.span.col, c.callee_name.as_str(), id);
        assert(self.model(program@) =~= m0.with_site(c@));
    }

    fn knows_flow(&self, flow: &FlowConstraint) -> (r: bool)
        ensures
            forall|p: ProgramV| r == #[trigger] self.model(p).knows(vars_of(flow@)),
    {
        let (a, b) = match flow {
            FlowConstraint::Copy { dst, src } => (*dst, *src),
            FlowConstraint::AddrOfVar { dst, src } => (*dst, *src),
            FlowConstraint::AddrOfFn { dst, callee } => (*dst, *dst),
            FlowConstraint::Load { dst, src } => (*dst, *src),
            FlowConstraint::Store { dst, src } => (*dst, *src),
            FlowConstraint::GepField { dst, base, field, field_name } => (*dst, *base),
            FlowConstraint::ArrayFnMember { array, callee } => (*array, *array),
            FlowConstraint::CallReturn { dst, callee_name } => (*dst, *dst),
            FlowConstraint::CallReturnIndirect { dst, callee_var } => (*dst, *callee_var),
            FlowConstraint::NewHeap { dst } => (*dst, *dst),
            FlowConstraint::StringConst { dst, value } => (*dst, *dst),
        };
        let r = self.knows(a) && self.knows(b);
        proof {
            let vs = vars_of(flow@);
            assert(vs[0] == a);
            assert(vs.len() == 1 || (vs.len() == 2 && vs[1] == b));
            assert(vs.len() == 1 ==> a == b);
        }
        r
    }

    fn renumber_flow(&self, flow: &FlowConstraint) -> (r: FlowConstraint)
        ensures
            forall|p: ProgramV| r@ == #[trigger] self.model(p).renumbered_flow(flow@),
    {
        match flow {
            FlowConstraint::Copy { dst, src } => FlowConstraint::Copy {
                dst: self.var(*dst),
                src: self.var(*src),
            },
            FlowConstraint::AddrOfVar { dst, src } => FlowConstraint::AddrOfVar {
                dst: self.var(*dst),
                src: self.var(*src),
            },
            FlowConstraint::AddrOfFn { dst, callee } => FlowConstraint::AddrOfFn {
                dst: self.var(*dst),
                callee: self.func(*callee),
            },
            FlowConstraint::Load { dst, src } => FlowConstraint::Load {
                dst: self.var(*dst),
                src: self.var(*src),
            },
            FlowConstraint::Store { dst, src } => FlowConstraint::Store {
                dst: self.var(*dst),
                src: self.var(*src),
            },
            FlowConstraint::GepField { dst, base, field, field_name } => FlowConstraint::GepField {
                dst: self.var(*dst),
                base: self.var(*base),
                field: *field,
                field_name: field_name.clone(),
            },
            FlowConstraint::ArrayFnMember { array, callee } => FlowConstraint::ArrayFnMember {
                array: self.var(*array),
                callee: self.func(*callee),
            },
            FlowConstraint::CallReturn { dst, callee_name } => FlowConstraint::CallReturn {
                dst: self.var(*dst),
                callee_name: callee_name.clone(),
            },
            FlowConstraint::CallReturnIndirect { dst, callee_var } => {
                FlowConstraint::CallReturnIndirect {
                    dst: self.var(*dst),
                    callee_var: self.var(*callee_var),
                }
            },
            FlowConstraint::NewHeap { dst } => FlowConstraint::NewHeap { dst: self.var(*dst) },
            FlowConstraint::StringConst { dst, value } => FlowConstraint::StringConst {
                dst: self.var(*dst),
                value: value.clone(),
            },
        }
    }

    fn knows_return(&self, flow: &ReturnFlow) -> (r: bool)
        ensures
            forall|p: ProgramV| r == #[trigger] self.model(p).knows(vars_of_return(flow@)),
    {
        match flow {
            ReturnFlow::AddrOfVar { src } => {
                assert(vars_of_return(flow@)[0] == *src);
                self.knows(*src)
            },
            ReturnFlow::Copy { src } => {
                assert(vars_of_return(flow@)[0] == *src);
                self.knows(*src)
            },
            ReturnFlow::AddrOfFn { callee } => true,
            ReturnFlow::Call { callee_name } => true,
        }
    }

    fn renumber_return(&self, flow: &ReturnFlow) -> (r: ReturnFlow)
        ensures
            forall|p: ProgramV| r@ == #[trigger] self.model(p).renumbered_return(flow@),
    {
        match flow {
            ReturnFlow::AddrOfVar { src } => ReturnFlow::AddrOfVar { src: self.var(*src) },
            ReturnFlow::AddrOfFn { callee } => ReturnFlow::AddrOfFn { callee: self.func(*callee) },
            ReturnFlow::Copy { src } => ReturnFlow::Copy { src: self.var(*src) },
            ReturnFlow::Call { callee_name } => ReturnFlow::Call {
                callee_name: callee_name.clone(),
            },
        }
    }
}

fn clone_numbers(v: &Vec<u32>) -> (r: Vec<u32>)
    ensures
        r@ == v@,
{
    let mut out: Vec<u32> = Vec::new();
    let mut i: usize = 0;
    while i < v.len()
        invariant
            i <= v@.len(),
            out@ == v@.take(i as int),
        decreases v@.len() - i,
    {
        out.push(v[i]);
        proof {
            take_push(v@, i as int);
        }
        i = i + 1;
    }
    assert(v@.take(i as int) =~= v@);
    out
}

fn merge_types(dst: &mut TypeTable, src: &TypeTable) -> (r: FxHashMap<u32, TypeId>)
    ensures
        final(dst)@ == old(dst)@.merged(src@),
        r@ == old(dst)@.type_map(src@.types, src@.types.len() as int),
{
    let mut map: FxHashMap<u32, TypeId> = fx_map();
    let mut i: usize = 0;
    while i < src.types.len()
        invariant
            i <= src.types@.len(),
            dst@ == old(dst)@.with_types(src@.types, i as int),
            map@ == old(dst)@.type_map(src@.types, i as int),
        decreases src.types@.len() - i,
    {
        assert(src@.types[i as int] == src.types@[i as int]@);
        let id = match &src.types[i].desc {
            TypeDesc::Struct { name, fields } => {
                proof {
                    fields_view_index(fields@);
                }
                if fields.len() > 0 {
                    dst.compute_struct_layout(name.clone(), clone_fields(fields))
                } else {
                    dst.intern(clone_desc(&src.types[i].desc))
                }
            },
            TypeDesc::Union { name, fields } => {
                proof {
                    fields_view_index(fields@);
                }
                if fields.len() > 0 {
                    dst.compute_union_layout(name.clone(), clone_fields(fields))
                } else {
                    dst.intern(clone_desc(&src.types[i].desc))
                }
            },
            _ => dst.intern(clone_desc(&src.types[i].desc)),
        };
        fx_insert(&mut map, src.types[i].id.0, id);
        i = i + 1;
    }
    let ghost mid = dst@;
    let mut j: usize = 0;
    while j < src.aliases.len()
        invariant
            j <= src.aliases@.len(),
            dst@ == mid.with_aliases(src@.aliases, j as int),
        decreases src.aliases@.len() - j,
    {
        assert(src@.aliases[j as int] == (src.aliases@[j as int].0@, src.aliases@[j as int].1@));
        if dst.resolve_alias(src.aliases[j].0.as_str()).is_none() {
            dst.register_alias(src.aliases[j].0.as_str(), clone_desc(&src.aliases[j].1));
        }
        j = j + 1;
    }
    map
}

fn add_paths(program: &mut Program, paths: &Vec<String>) -> (r: Vec<FileId>)
    ensures
        final(program)@ == (ProgramV {
            symbols: old(program)@.symbols.with_paths(
                names_view(paths@),
                paths@.len() as int,
            ),
            ..old(program)@
        }),
        r@ == old(program)@.symbols.files_of(names_view(paths@), paths@.len() as int),
        old(program).wf() ==> final(program).wf(),
{
    let ghost names = names_view(paths@);
    let mut out: Vec<FileId> = Vec::new();
    let mut i: usize = 0;
    assert(out@ =~= Seq::empty());
    while i < paths.len()
        invariant
            names == names_view(paths@),
            i <= paths@.len(),
            program@ == (ProgramV {
                symbols: old(program)@.symbols.with_paths(names, i as int),
                ..old(program)@
            }),
            out@ == old(program)@.symbols.files_of(names, i as int),
            old(program).wf() ==> program.wf(),
        decreases paths@.len() - i,
    {
        assert(names[i as int] == paths@[i as int]@);
        out.push(program.symbols.add_file_interned(paths[i].as_str()));
        i = i + 1;
    }
    out
}

fn add_headers(program: &mut Program, tu: FileId, files: &Vec<FileId>)
    ensures
        final(program)@ == (ProgramV {
            symbols: old(program)@.symbols.with_headers(tu, files@, files@.len() as int),
            ..old(program)@
        }),
        old(program).wf() ==> final(program).wf(),
{
    let mut i: usize = 0;
    while i < files.len()
        invariant
            i <= files@.len(),
            program@ == (ProgramV {
                symbols: old(program)@.symbols.with_headers(tu, files@, i as int),
                ..old(program)@
            }),
            old(program).wf() ==> program.wf(),
        decreases files@.len() - i,
    {
        program.symbols.register_included_header(tu, files[i]);
        i = i + 1;
    }
}

fn add_edges(program: &mut Program, edges: &Vec<(String, String)>)
    ensures
        final(program)@ == (ProgramV {
            inheritance: with_edges(
                old(program)@.inheritance,
                pairs_view(edges@),
                edges@.len() as int,
            ),
            ..old(program)@
        }),
        old(program).wf() ==> final(program).wf(),
{
    let ghost all = pairs_view(edges@);
    let mut i: usize = 0;
    while i < edges.len()
        invariant
            all == pairs_view(edges@),
            i <= edges@.len(),
            program@ == (ProgramV {
                inheritance: with_edges(old(program)@.inheritance, all, i as int),
                ..old(program)@
            }),
            old(program).wf() ==> program.wf(),
        decreases edges@.len() - i,
    {
        assert(all[i as int] == (edges@[i as int].0@, edges@[i as int].1@));
        program.add_inheritance(edges[i].0.as_str(), edges[i].1.as_str());
        i = i + 1;
    }
}

fn add_reports(program: &mut Program, reports: &Vec<Diagnostic>)
    ensures
        final(program)@ == (ProgramV {
            diagnostics: old(program)@.diagnostics + reports_view(reports@),
            ..old(program)@
        }),
        old(program).wf() ==> final(program).wf(),
{
    let ghost all = reports_view(reports@);
    let mut i: usize = 0;
    assert(program@.diagnostics =~= program@.diagnostics + all.take(0));
    while i < reports.len()
        invariant
            all == reports_view(reports@),
            i <= reports@.len(),
            program@ == (ProgramV {
                diagnostics: old(program)@.diagnostics + all.take(i as int),
                ..old(program)@
            }),
            old(program).wf() ==> program.wf(),
        decreases reports@.len() - i,
    {
        let d = &reports[i];
        let copy = Diagnostic {
            severity: d.severity,
            file: d.file,
            line: d.line,
            message: d.message.clone(),
            stage: d.stage.clone(),
        };
        assert(copy@ == all[i as int]);
        program.add_diagnostic(copy);
        assert(program@.diagnostics =~= old(program)@.diagnostics + all.take(i + 1));
        i = i + 1;
    }
    assert(all.take(i as int) =~= all);
}

proof fn paths_add_no_variable(s: SymbolsV, paths: Seq<Seq<char>>, n: int)
    ensures
        s.with_paths(paths, n).variables == s.variables,
    decreases n,
{
    if n > 0 {
        paths_add_no_variable(s, paths, n - 1);
    }
}

proof fn headers_add_no_variable(s: SymbolsV, tu: FileId, files: Seq<FileId>, n: int)
    ensures
        s.with_headers(tu, files, n).variables == s.variables,
    decreases n,
{
    if n > 0 {
        headers_add_no_variable(s, tu, files, n - 1);
    }
}

proof fn merging_adds_no_variable(p: ProgramV, unit: UnitV)
    ensures
        p.merging(unit).program.symbols.variables == p.symbols.variables,
{
    let s1 = p.symbols.with_paths(unit.files, unit.files.len() as int);
    let files = p.symbols.files_of(unit.files, unit.files.len() as int);
    let s2 = s1.with_path(unit.path);
    paths_add_no_variable(p.symbols, unit.files, unit.files.len() as int);
    headers_add_no_variable(s2, s2.file_of(unit.path), files, files.len() as int);
}

/// Puts what a source contributes into a program.
pub fn merge_unit_index(program: &mut Program, unit: &UnitIndex)
    requires
        old(program).wf(),
        unit.fn_returns.wf(),
    ensures
        final(program).wf(),
        final(program)@ == old(program)@.merged(unit@),
{
    let ghost p0 = program@;
    let ghost u = unit@;
    add_reports(program, &unit.diagnostics);
    if program.anon_type_counter < unit.anon_type_counter {
        program.anon_type_counter = unit.anon_type_counter;
    }
    add_edges(program, &unit.inheritance);
    let types = merge_types(&mut program.types, &unit.types);
    let files = add_paths(program, &unit.files);
    let primary = program.symbols.add_file_interned(unit.path.as_str());
    add_headers(program, primary, &files);
    let mut m = Merge {
        types,
        files,
        primary,
        fns: index_map(),
        dropped: fx_set(),
        vars: fx_map(),
    };
    assert(m.model(program@) =~= p0.starting(u));
    m.dropped = m.find_repeats(program, &unit.functions);
    let ghost m0 = m.model(program@);
    assert(m0 =~= p0.merging(u));
    proof {
        merging_adds_no_variable(p0, u);
    }
    let from = program.symbols.variable_count();
    let mut i: usize = 0;
    while i < unit.variables.len()
        invariant
            program.wf(),
            u == unit@,
            i <= unit.variables@.len(),
            from <= program@.symbols.variables.len(),
            m.model(program@) == m0.with_vars(u.variables, i as int),
        decreases unit.variables@.len() - i,
    {
        assert(u.variables[i as int] == unit.variables@[i as int]@);
        m.add_var(program, &unit.variables[i]);
        i = i + 1;
    }
    let ghost m1 = m.model(program@);
    let mut i: usize = 0;
    while i < unit.functions.len()
        invariant
            program.wf(),
            u == unit@,
            i <= unit.functions@.len(),
            program@.symbols.variables == m1.program.symbols.variables,
            m.model(program@) == m1.with_fns(u.functions, i as int),
        decreases unit.functions@.len() - i,
    {
        assert(u.functions[i as int] == unit.functions@[i as int]@);
        m.add_fn(program, &unit.functions[i]);
        i = i + 1;
    }
    m.own_vars(program, from);
    let ghost m3 = m.model(program@);
    let mut i: usize = 0;
    while i < unit.call_sites.len()
        invariant
            program.wf(),
            u == unit@,
            i <= unit.call_sites@.len(),
            m.model(program@) == m3.with_sites(u.call_sites, i as int),
        decreases unit.call_sites@.len() - i,
    {
        assert(u.call_sites[i as int] == unit.call_sites@[i as int]@);
        m.add_site(program, &unit.call_sites[i]);
        i = i + 1;
    }
    let ghost m4 = m.model(program@);
    let ghost p4 = program@;
    let mut i: usize = 0;
    while i < unit.flow.len()
        invariant
            program.wf(),
            u == unit@,
            m4 == m.model(p4),
            i <= unit.flow@.len(),
            program@ == (ProgramV { flow: m4.flows(u.flow, i as int), ..p4 }),
        decreases unit.flow@.len() - i,
    {
        assert(u.flow[i as int] == unit.flow@[i as int]@);
        if m.knows_flow(&unit.flow[i]) {
            assert(m4.knows(vars_of(u.flow[i as int])));
            let flow = m.renumber_flow(&unit.flow[i]);
            assert(flow@ == m4.renumbered_flow(u.flow[i as int]));
            push_flow(&mut program.flow, flow);
        } else {
            assert(!m4.knows(vars_of(u.flow[i as int])));
        }
        i = i + 1;
    }
    let ghost p5 = program@;
    let mut i: usize = 0;
    while i < unit.fn_returns.len()
        invariant
            program.wf(),
            unit.fn_returns.wf(),
            u == unit@,
            m4 == m.model(p4),
            i <= u.fn_returns.len(),
            program@ == (ProgramV {
                fn_returns: m4.fn_returns(u.fn_returns, i as int),
                ..p5
            }),
        decreases u.fn_returns.len() - i,
    {
        let (f, flows) = unit.fn_returns.at(i);
        if !fx_set_contains(&m.dropped, f.0) {
            let known = m.known_fn(f);
            assert(known == m4.known_fn(FnId(f.0)));
            if let Some(g) = known {
                let ghost before = program@;
                program.fn_returns.ensure(g);
                let mut j: usize = 0;
                while j < flows.len()
                    invariant
                        program.wf(),
                        m4 == m.model(p4),
                        j <= flows@.len(),
                        program@ == (ProgramV {
                            fn_returns: m4.with_returned(
                                before.fn_returns,
                                g.0,
                                returns_view(flows@),
                                j as int,
                            ),
                            ..before
                        }),
                    decreases flows@.len() - j,
                {
                    assert(returns_view(flows@)[j as int] == flows@[j as int]@);
                    if m.knows_return(&flows[j]) {
                        assert(m4.knows(vars_of_return(flows@[j as int]@)));
                        let flow = m.renumber_return(&flows[j]);
                        assert(flow@ == m4.renumbered_return(flows@[j as int]@));
                        program.fn_returns.add(g, flow);
                    } else {
                        assert(!m4.knows(vars_of_return(flows@[j as int]@)));
                    }
                    j = j + 1;
                }
            }
        }
        i = i + 1;
    }
}

} // verus!
