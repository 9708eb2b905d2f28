//! The rows of the tables, the flow graph aside.

use crate::analysis::constraints::{ArgFlowEdge, CallGraphEdge, LocKind, LocV, ResolutionKind};
use crate::analysis::pag::{pag_parts, Pag, PagNode, PagNodeKind, PagV};
use crate::analysis::solver::{loc_numbers, AnalysisResult, ResultV, SYNTHETIC_CALL_SITE};
use crate::collections::{fx_set, fx_set_contains, fx_set_insert};
use crate::ir::diagnostic::{reports_view, Diagnostic, DiagnosticSeverity, ReportV};
use crate::ir::ids::{PagNodeId, VarId};
use crate::ir::symbol::{
    CallSite, FnV, Function, Linkage, SiteV, StorageClass, SymbolTable, SymbolsV, VarV, Variable,
};
use crate::ir::types::{desc_name, kind_of_type, name_of_type, type_kind, TableV, TypeTable, TypeV};
use crate::text::{cat2, owned};
use rustc_hash::FxHashSet;
use crate::analysis::constraints;
use vstd::prelude::*;

verus! {

/// A file.
#[derive(Debug)]
pub struct FileRow {
    pub id: u32,
    pub path: String,
}

/// The mathematical form of a list of [`FileRow`]s.
pub open spec fn file_rows_view(s: Seq<FileRow>) -> Seq<(u32, Seq<char>)> {
    Seq::new(s.len(), |i: int| (s[i].id, s[i].path@))
}

/// One row per file.
pub open spec fn file_rows(s: SymbolsV) -> Seq<(u32, Seq<char>)> {
    Seq::new(s.files.len(), |i: int| (s.files[i].0.0, s.files[i].1))
}

/// The rows of the files.
pub fn rows_of_files(symbols: &SymbolTable) -> (r: Vec<FileRow>)
    ensures
        file_rows_view(r@) == file_rows(symbols@),
{
    let mut out: Vec<FileRow> = Vec::new();
    let mut i: usize = 0;
    while i < symbols.file_count()
        invariant
            i <= symbols@.files.len(),
            out@.len() == i,
            forall|j: int|
                0 <= j < i ==> file_rows_view(out@)[j] == #[trigger] file_rows(symbols@)[j],
        decreases symbols@.files.len() - i,
    {
        let f = symbols.file_at(i);
        let ghost before = out@;
        out.push(FileRow { id: f.id.0, path: f.path.clone() });
        assert(forall|j: int| 0 <= j < i ==> out@[j] == #[trigger] before[j]);
        assert forall|j: int| 0 <= j < i + 1 implies file_rows_view(out@)[j] == #[trigger] file_rows(
            symbols@,
        )[j] by {
            if j < i {
                assert(out@[j] == before[j]);
                assert(file_rows_view(out@)[j] == file_rows_view(before)[j]);
            }
        }
        i = i + 1;
    }
    assert(file_rows_view(out@) =~= file_rows(symbols@));
    out
}

/// Who can see a function, in a word.
pub open spec fn linkage_word(l: Linkage) -> Seq<char> {
    match l {
        Linkage::External => "external"@,
        Linkage::Internal => "internal"@,
        Linkage::Nowhere => "none"@,
    }
}

fn word_of_linkage(l: Linkage) -> (r: String)
    ensures
        r@ == linkage_word(l),
{
    match l {
        Linkage::External => owned("external"),
        Linkage::Internal => owned("internal"),
        Linkage::Nowhere => owned("none"),
    }
}

/// A function.
#[derive(Debug)]
pub struct FunctionRow {
    pub id: u32,
    pub name: String,
    pub file: u32,
    pub line_start: u32,
    pub line_end: u32,
    pub linkage: String,
    pub signature: String,
    pub is_defined: bool,
}

/// The mathematical form of a [`FunctionRow`].
pub struct FunctionRowV {
    pub id: u32,
    pub name: Seq<char>,
    pub file: u32,
    pub line_start: u32,
    pub line_end: u32,
    pub linkage: Seq<char>,
    pub signature: Seq<char>,
    pub is_defined: bool,
}

impl View for FunctionRow {
    type V = FunctionRowV;

    open spec fn view(&self) -> FunctionRowV {
        FunctionRowV {
            id: self.id,
            name: self.name@,
            file: self.file,
            line_start: self.line_start,
            line_end: self.line_end,
            linkage: self.linkage@,
            signature: self.signature@,
            is_defined: self.is_defined,
        }
    }
}

pub open spec fn function_rows_view(s: Seq<FunctionRow>) -> Seq<FunctionRowV> {
    Seq::new(s.len(), |i: int| s[i]@)
}

/// The row of a function. Only the line that it starts on is known.
pub open spec fn function_row(f: FnV) -> FunctionRowV {
    FunctionRowV {
        id: f.id.0,
        name: f.name,
        file: f.file.0,
        line_start: f.span.line,
        line_end: f.span.line,
        linkage: linkage_word(f.linkage),
        signature: "fn_"@ + f.name,
        is_defined: f.is_defined,
    }
}

/// One row per function.
pub open spec fn function_rows(s: SymbolsV) -> Seq<FunctionRowV> {
    Seq::new(s.functions.len(), |i: int| function_row(s.functions[i]))
}

fn row_of_function(f: &Function) -> (r: FunctionRow)
    ensures
        r@ == function_row(f@),
{
    FunctionRow {
        id: f.id.0,
        name: f.name.clone(),
        file: f.file.0,
        line_start: f.span.line,
        line_end: f.span.line,
        linkage: word_of_linkage(f.linkage),
        signature: cat2("fn_", f.name.as_str()),
        is_defined: f.is_defined,
    }
}

/// The rows of the functions.
pub fn rows_of_functions(symbols: &SymbolTable) -> (r: Vec<FunctionRow>)
    ensures
        function_rows_view(r@) == function_rows(symbols@),
{
    let mut out: Vec<FunctionRow> = Vec::new();
    let mut i: usize = 0;
    while i < symbols.function_count()
        invariant
            i <= symbols@.functions.len(),
            out@.len() == i,
            forall|j: int|
                0 <= j < i ==> #[trigger] out@[j]@ == function_row(symbols@.functions[j]),
        decreases symbols@.functions.len() - i,
    {
        out.push(row_of_function(symbols.function_at(i)));
        i = i + 1;
    }
    assert(function_rows_view(out@) =~= function_rows(symbols@));
    out
}

/// Where a variable lives, in a word.
pub open spec fn storage_word(s: StorageClass) -> Seq<char> {
    match s {
        StorageClass::Global => "global"@,
        StorageClass::FileStatic => "file_static"@,
        StorageClass::FnStatic => "fn_static"@,
        StorageClass::Param => "param"@,
        StorageClass::Local => "local"@,
    }
}

pub fn word_of_storage(s: StorageClass) -> (r: String)
    ensures
        r@ == storage_word(s),
{
    match s {
        StorageClass::Global => owned("global"),
        StorageClass::FileStatic => owned("file_static"),
        StorageClass::FnStatic => owned("fn_static"),
        StorageClass::Param => owned("param"),
        StorageClass::Local => owned("local"),
    }
}

/// A variable.
#[derive(Debug)]
pub struct VariableRow {
    pub id: u32,
    pub name: String,
    pub kind: String,
    pub fn_id: Option<u32>,
    pub type_id: u32,
    pub file: u32,
    pub line: u32,
    pub col: u32,
}

/// The mathematical form of a [`VariableRow`].
pub struct VariableRowV {
    pub id: u32,
    pub name: Seq<char>,
    pub kind: Seq<char>,
    pub fn_id: Option<u32>,
    pub type_id: u32,
    pub file: u32,
    pub line: u32,
    pub col: u32,
}

impl View for VariableRow {
    type V = VariableRowV;

    open spec fn view(&self) -> VariableRowV {
        VariableRowV {
            id: self.id,
            name: self.name@,
            kind: self.kind@,
            fn_id: self.fn_id,
            type_id: self.type_id,
            file: self.file,
            line: self.line,
            col: self.col,
        }
    }
}

pub open spec fn variable_rows_view(s: Seq<VariableRow>) -> Seq<VariableRowV> {
    Seq::new(s.len(), |i: int| s[i]@)
}

pub open spec fn variable_row(v: VarV) -> VariableRowV {
    VariableRowV {
        id: v.id.0,
        name: v.name,
        kind: storage_word(v.storage),
        fn_id: match v.fn_id {
            Some(f) => Some(f.0),
            None => None,
        },
        type_id: v.type_id.0,
        file: v.span.file.0,
        line: v.span.line,
        col: v.span.col,
    }
}

fn row_of_variable(v: &Variable) -> (r: VariableRow)
    ensures
        r@ == variable_row(v@),
{
    VariableRow {
        id: v.id.0,
        name: v.name.clone(),
        kind: word_of_storage(v.storage),
        fn_id: match v.fn_id {
            Some(f) => Some(f.0),
            None => None,
        },
        type_id: v.type_id.0,
        file: v.span.file.0,
        line: v.span.line,
        col: v.span.col,
    }
}

/// Whether a variable is one of the first `n` arguments that reach a
/// parameter, or one of those parameters.
pub open spec fn in_argument(flows: Seq<ArgFlowEdge>, v: u32, n: int) -> bool {
    exists|i: int|
        0 <= i < n && ((#[trigger] flows[i]).formal.0 == v || flows[i].actual_var == Some(VarId(v)))
}

/// Whether one of the first `n` nodes stands for a variable.
pub open spec fn at_node(nodes: Seq<PagNode>, v: u32, n: int) -> bool {
    exists|i: int| 0 <= i < n && #[trigger] nodes[i].kind == PagNodeKind::Var(VarId(v))
}

/// Whether one of the first `n` places is a variable, or part of it.
pub open spec fn at_place(places: Seq<LocV>, v: u32, n: int) -> bool {
    exists|i: int| 0 <= i < n && #[trigger] places[i].var == Some(VarId(v))
}

/// Whether a variable takes part in the flow of values.
pub open spec fn flows_through(pag: PagV, result: ResultV, v: u32) -> bool {
    ||| in_argument(result.arg_flow_edges, v, result.arg_flow_edges.len() as int)
    ||| at_node(pag.nodes, v, pag.nodes.len() as int)
    ||| at_place(pag.locations, v, pag.locations.len() as int)
}

/// The rows of those of the first `n` variables that are in a set, or of all.
pub open spec fn variable_rows(vars: Seq<VarV>, all: bool, wanted: spec_fn(u32) -> bool, n: int)
    -> Seq<VariableRowV>
    decreases n,
{
    if n <= 0 {
        Seq::empty()
    } else {
        let before = variable_rows(vars, all, wanted, n - 1);
        if all || wanted(vars[n - 1].id.0) {
            before.push(variable_row(vars[n - 1]))
        } else {
            before
        }
    }
}

/// The rows of the variables: of all of them in full detail, else of those
/// that take part in the flow of values.
pub open spec fn rows_of_vars(vars: Seq<VarV>, pag: PagV, result: ResultV, all: bool) -> Seq<
    VariableRowV,
> {
    variable_rows(vars, all, |v: u32| flows_through(pag, result, v), vars.len() as int)
}

/// The variables that take part in the flow of values.
fn variables_in_flow(pag: &Pag, result: &AnalysisResult) -> (r: FxHashSet<u32>)
    ensures
        forall|v: u32| #[trigger] r@.contains(v) <==> flows_through(pag@, result@, v),
{
    proof {
        pag_parts(pag);
    }
    let mut set: FxHashSet<u32> = fx_set();
    let mut i: usize = 0;
    while i < result.arg_flow_edges.len()
        invariant
            i <= result.arg_flow_edges@.len(),
            forall|v: u32| #[trigger]
                set@.contains(v) <==> in_argument(result.arg_flow_edges@, v, i as int),
        decreases result.arg_flow_edges@.len() - i,
    {
        let e = &result.arg_flow_edges[i];
        let ghost before = set@;
        if let Some(a) = e.actual_var {
            fx_set_insert(&mut set, a.0);
        }
        fx_set_insert(&mut set, e.formal.0);
        assert forall|v: u32| #[trigger]
            set@.contains(v) <==> in_argument(result.arg_flow_edges@, v, i + 1) by {
            if in_argument(result.arg_flow_edges@, v, i as int) {
                assert(before.contains(v));
            }
            let last = result.arg_flow_edges@[i as int];
            if set@.contains(v) && !before.contains(v) {
                assert(last.formal.0 == v || last.actual_var == Some(VarId(v)));
            }
            if before.contains(v) {
                assert(in_argument(result.arg_flow_edges@, v, i as int));
            }
        }
        i = i + 1;
    }
    let ghost flows = result.arg_flow_edges@;
    let mut i: usize = 0;
    while i < pag.nodes.len()
        invariant
            i <= pag.nodes@.len(),
            flows == result.arg_flow_edges@,
            forall|v: u32| #[trigger]
                set@.contains(v) <==> (in_argument(flows, v, flows.len() as int) || at_node(
                    pag.nodes@,
                    v,
                    i as int,
                )),
        decreases pag.nodes@.len() - i,
    {
        let ghost before = set@;
        if let PagNodeKind::Var(x) = pag.nodes[i].kind {
            fx_set_insert(&mut set, x.0);
        }
        assert forall|v: u32| #[trigger]
            set@.contains(v) <==> (in_argument(flows, v, flows.len() as int) || at_node(
                pag.nodes@,
                v,
                i + 1,
            )) by {
            if at_node(pag.nodes@, v, i as int) {
                assert(before.contains(v));
            }
            if set@.contains(v) && !before.contains(v) {
                assert(pag.nodes@[i as int].kind == PagNodeKind::Var(VarId(v)));
            }
            if before.contains(v) {
                assert(in_argument(flows, v, flows.len() as int) || at_node(
                    pag.nodes@,
                    v,
                    i as int,
                ));
            }
        }
        i = i + 1;
    }
    let ghost nodes = pag.nodes@;
    let ghost places = pag@.locations;
    let mut i: usize = 0;
    while i < pag.locations.len()
        invariant
            i <= pag.locations@.len(),
            places == constraints::locations_view(pag.locations@),
            forall|v: u32| #[trigger]
                set@.contains(v) <==> (in_argument(flows, v, flows.len() as int) || at_node(
                    nodes,
                    v,
                    nodes.len() as int,
                ) || at_place(places, v, i as int)),
        decreases pag.locations@.len() - i,
    {
        let ghost before = set@;
        if let Some(x) = pag.locations[i].var {
            fx_set_insert(&mut set, x.0);
        }
        assert(places[i as int] == pag.locations@[i as int]@);
        assert forall|v: u32| #[trigger]
            set@.contains(v) <==> (in_argument(flows, v, flows.len() as int) || at_node(
                nodes,
                v,
                nodes.len() as int,
            ) || at_place(places, v, i + 1)) by {
            if at_place(places, v, i as int) {
                assert(before.contains(v));
            }
            if set@.contains(v) && !before.contains(v) {
                assert(places[i as int].var == Some(VarId(v)));
            }
            if before.contains(v) {
                assert(in_argument(flows, v, flows.len() as int) || at_node(
                    nodes,
                    v,
                    nodes.len() as int,
                ) || at_place(places, v, i as int));
            }
        }
        i = i + 1;
    }
    set
}

/// The rows of the variables.
pub fn rows_of_variables(
    symbols: &SymbolTable,
    pag: &Pag,
    result: &AnalysisResult,
    all: bool,
) -> (r: Vec<VariableRow>)
    ensures
        variable_rows_view(r@) == rows_of_vars(symbols@.variables, pag@, result@, all),
{
    let wanted = variables_in_flow(pag, result);
    let ghost test = |v: u32| flows_through(pag@, result@, v);
    let ghost vars = symbols@.variables;
    let mut out: Vec<VariableRow> = Vec::new();
    let mut i: usize = 0;
    assert(variable_rows_view(out@) =~= variable_rows(vars, all, test, 0));
    while i < symbols.variable_count()
        invariant
            vars == symbols@.variables,
            i <= vars.len(),
            forall|v: u32| #[trigger] wanted@.contains(v) <==> test(v),
            variable_rows_view(out@) == variable_rows(vars, all, test, i as int),
        decreases vars.len() - i,
    {
        let v = symbols.variable_at(i);
        if all || fx_set_contains(&wanted, v.id.0) {
            let ghost before = out@;
            out.push(row_of_variable(v));
            assert(variable_rows_view(out@) =~= variable_rows_view(before).push(
                variable_row(vars[i as int]),
            ));
        }
        i = i + 1;
    }
    out
}

/// A call site.
#[derive(Debug)]
pub struct CallSiteRow {
    pub id: u32,
    pub caller: u32,
    pub file: u32,
    pub line: u32,
    pub col: u32,
    pub callee_text: String,
    pub is_direct: bool,
}

/// The mathematical form of a [`CallSiteRow`].
pub struct CallSiteRowV {
    pub id: u32,
    pub caller: u32,
    pub file: u32,
    pub line: u32,
    pub col: u32,
    pub callee_text: Seq<char>,
    pub is_direct: bool,
}

impl View for CallSiteRow {
    type V = CallSiteRowV;

    open spec fn view(&self) -> CallSiteRowV {
        CallSiteRowV {
            id: self.id,
            caller: self.caller,
            file: self.file,
            line: self.line,
            col: self.col,
            callee_text: self.callee_text@,
            is_direct: self.is_direct,
        }
    }
}

pub open spec fn site_rows_view(s: Seq<CallSiteRow>) -> Seq<CallSiteRowV> {
    Seq::new(s.len(), |i: int| s[i]@)
}

pub open spec fn site_row(s: SiteV) -> CallSiteRowV {
    CallSiteRowV {
        id: s.id.0,
        caller: s.caller.0,
        file: s.span.file.0,
        line: s.span.line,
        col: s.span.col,
        callee_text: s.callee_name,
        is_direct: s.is_direct,
    }
}

/// Whether one of the first `n` calls happens at a call site.
pub open spec fn has_call(edges: Seq<CallGraphEdge>, site: u32, n: int) -> bool {
    exists|i: int| 0 <= i < n && #[trigger] edges[i].call_site.0 == site
}

/// Whether one of the first `n` arguments is passed at a call site.
pub open spec fn has_argument(flows: Seq<ArgFlowEdge>, site: u32, n: int) -> bool {
    exists|i: int| 0 <= i < n && #[trigger] flows[i].call_site.0 == site
}

/// Whether a call site has a row: something is known of it, or it does not
/// name what it calls.
pub open spec fn site_kept(site: SiteV, result: ResultV) -> bool {
    ||| has_call(result.call_edges, site.id.0, result.call_edges.len() as int)
    ||| has_argument(result.arg_flow_edges, site.id.0, result.arg_flow_edges.len() as int)
    ||| !site.is_direct
}

/// The rows of those of the first `n` call sites that have one.
pub open spec fn site_rows(sites: Seq<SiteV>, result: ResultV, n: int) -> Seq<CallSiteRowV>
    decreases n,
{
    if n <= 0 {
        Seq::empty()
    } else {
        let before = site_rows(sites, result, n - 1);
        if site_kept(sites[n - 1], result) {
            before.push(site_row(sites[n - 1]))
        } else {
            before
        }
    }
}

/// A row is that of a call site that something is known of, or that does not
/// name what it calls; and every such call site has one.
pub proof fn site_rows_are_kept(sites: Seq<SiteV>, result: ResultV, n: int)
    requires
        0 <= n <= sites.len(),
    ensures
        forall|row: CallSiteRowV| #[trigger]
            site_rows(sites, result, n).contains(row) <==> exists|i: int|
                0 <= i < n && site_kept(#[trigger] sites[i], result) && row == site_row(sites[i]),
    decreases n,
{
    if n > 0 {
        site_rows_are_kept(sites, result, n - 1);
        let before = site_rows(sites, result, n - 1);
        let after = site_rows(sites, result, n);
        assert forall|row: CallSiteRowV| #[trigger]
            after.contains(row) <==> exists|i: int|
                0 <= i < n && site_kept(#[trigger] sites[i], result) && row == site_row(
                    sites[i],
                ) by {
            if after.contains(row) {
                let k = choose|k: int| 0 <= k < after.len() && after[k] == row;
                if k < before.len() {
                    assert(before[k] == row);
                    assert(before.contains(row));
                } else {
                    assert(site_kept(sites[n - 1], result) && row == site_row(sites[n - 1]));
                }
            }
            if exists|i: int|
                0 <= i < n && site_kept(#[trigger] sites[i], result) && row == site_row(sites[i]) {
                let i = choose|i: int|
                    0 <= i < n && site_kept(#[trigger] sites[i], result) && row == site_row(
                        sites[i],
                    );
                if i < n - 1 {
                    assert(before.contains(row));
                    let k = choose|k: int| 0 <= k < before.len() && before[k] == row;
                    assert(after[k] == row);
                } else {
                    assert(after.last() == row);
                }
            }
        }
    }
}

fn row_of_site(s: &CallSite) -> (r: CallSiteRow)
    ensures
        r@ == site_row(s@),
{
    CallSiteRow {
        id: s.id.0,
        caller: s.caller.0,
        file: s.span.file.0,
        line: s.span.line,
        col: s.span.col,
        callee_text: s.callee_name.clone(),
        is_direct: s.is_direct,
    }
}

fn sites_with_calls(edges: &Vec<CallGraphEdge>) -> (r: FxHashSet<u32>)
    ensures
        forall|s: u32| #[trigger] r@.contains(s) <==> has_call(edges@, s, edges@.len() as int),
{
    let mut set: FxHashSet<u32> = fx_set();
    let mut i: usize = 0;
    while i < edges.len()
        invariant
            i <= edges@.len(),
            forall|s: u32| #[trigger] set@.contains(s) <==> has_call(edges@, s, i as int),
        decreases edges@.len() - i,
    {
        let ghost before = set@;
        fx_set_insert(&mut set, edges[i].call_site.0);
        assert forall|s: u32| #[trigger] set@.contains(s) <==> has_call(edges@, s, i + 1) by {
            if has_call(edges@, s, i as int) {
                assert(before.contains(s));
            }
            if set@.contains(s) && !before.contains(s) {
                assert(edges@[i as int].call_site.0 == s);
            }
            if before.contains(s) {
                assert(has_call(edges@, s, i as int));
            }
        }
        i = i + 1;
    }
    set
}

fn sites_with_arguments(flows: &Vec<ArgFlowEdge>) -> (r: FxHashSet<u32>)
    ensures
        forall|s: u32| #[trigger] r@.contains(s) <==> has_argument(flows@, s, flows@.len() as int),
{
    let mut set: FxHashSet<u32> = fx_set();
    let mut i: usize = 0;
    while i < flows.len()
        invariant
            i <= flows@.len(),
            forall|s: u32| #[trigger] set@.contains(s) <==> has_argument(flows@, s, i as int),
        decreases flows@.len() - i,
    {
        let ghost before = set@;
        fx_set_insert(&mut set, flows[i].call_site.0);
        assert forall|s: u32| #[trigger] set@.contains(s) <==> has_argument(flows@, s, i + 1) by {
            if has_argument(flows@, s, i as int) {
                assert(before.contains(s));
            }
            if set@.contains(s) && !before.contains(s) {
                assert(flows@[i as int].call_site.0 == s);
            }
            if before.contains(s) {
                assert(has_argument(flows@, s, i as int));
            }
        }
        i = i + 1;
    }
    set
}

/// The rows of the call sites.
pub fn rows_of_call_sites(symbols: &SymbolTable, result: &AnalysisResult) -> (r: Vec<CallSiteRow>)
    ensures
        site_rows_view(r@) == site_rows(
            symbols@.call_sites,
            result@,
            symbols@.call_sites.len() as int,
        ),
{
    let called = sites_with_calls(&result.call_edges);
    let passed = sites_with_arguments(&result.arg_flow_edges);
    let ghost sites = symbols@.call_sites;
    let mut out: Vec<CallSiteRow> = Vec::new();
    let mut i: usize = 0;
    assert(site_rows_view(out@) =~= site_rows(sites, result@, 0));
    while i < symbols.call_site_count()
        invariant
            sites == symbols@.call_sites,
            i <= sites.len(),
            forall|s: u32| #[trigger]
                called@.contains(s) <==> has_call(
                    result.call_edges@,
                    s,
                    result.call_edges@.len() as int,
                ),
            forall|s: u32| #[trigger]
                passed@.contains(s) <==> has_argument(
                    result.arg_flow_edges@,
                    s,
                    result.arg_flow_edges@.len() as int,
                ),
            site_rows_view(out@) == site_rows(sites, result@, i as int),
        decreases sites.len() - i,
    {
        let s = symbols.call_site_at(i);
        if fx_set_contains(&called, s.id.0) || fx_set_contains(&passed, s.id.0) || !s.is_direct {
            let ghost before = out@;
            out.push(row_of_site(s));
            assert(site_rows_view(out@) =~= site_rows_view(before).push(
                site_row(sites[i as int]),
            ));
        }
        i = i + 1;
    }
    out
}

/// How the target of a call was found, in a word.
pub open spec fn resolution_word(k: ResolutionKind) -> Seq<char> {
    match k {
        ResolutionKind::Direct => "direct"@,
        ResolutionKind::Indirect => "indirect"@,
        ResolutionKind::Ambiguous => "ambiguous"@,
        ResolutionKind::External => "external"@,
        ResolutionKind::IpcBridge => "ipc"@,
    }
}

fn word_of_resolution(k: ResolutionKind) -> (r: String)
    ensures
        r@ == resolution_word(k),
{
    match k {
        ResolutionKind::Direct => owned("direct"),
        ResolutionKind::Indirect => owned("indirect"),
        ResolutionKind::Ambiguous => owned("ambiguous"),
        ResolutionKind::External => owned("external"),
        ResolutionKind::IpcBridge => owned("ipc"),
    }
}

/// A call. One that no call site stands for has none.
#[derive(Debug)]
pub struct CallEdgeRow {
    pub id: u64,
    pub call_site: Option<u32>,
    pub caller: u32,
    pub callee: u32,
    pub resolution: String,
}

/// The mathematical form of a [`CallEdgeRow`].
pub struct CallEdgeRowV {
    pub id: u64,
    pub call_site: Option<u32>,
    pub caller: u32,
    pub callee: u32,
    pub resolution: Seq<char>,
}

impl View for CallEdgeRow {
    type V = CallEdgeRowV;

    open spec fn view(&self) -> CallEdgeRowV {
        CallEdgeRowV {
            id: self.id,
            call_site: self.call_site,
            caller: self.caller,
            callee: self.callee,
            resolution: self.resolution@,
        }
    }
}

pub open spec fn call_rows_view(s: Seq<CallEdgeRow>) -> Seq<CallEdgeRowV> {
    Seq::new(s.len(), |i: int| s[i]@)
}

pub open spec fn call_row(e: CallGraphEdge, i: int) -> CallEdgeRowV {
    CallEdgeRowV {
        id: (i + 1) as u64,
        call_site: if e.call_site.0 == SYNTHETIC_CALL_SITE {
            None
        } else {
            Some(e.call_site.0)
        },
        caller: e.caller.0,
        callee: e.callee.0,
        resolution: resolution_word(e.resolution),
    }
}

/// One row per call, counted from 1.
pub open spec fn call_rows(edges: Seq<CallGraphEdge>) -> Seq<CallEdgeRowV> {
    Seq::new(edges.len(), |i: int| call_row(edges[i], i))
}

/// The rows of the calls.
pub fn rows_of_calls(edges: &Vec<CallGraphEdge>) -> (r: Vec<CallEdgeRow>)
    ensures
        call_rows_view(r@) == call_rows(edges@),
{
    let mut out: Vec<CallEdgeRow> = Vec::new();
    let mut i: usize = 0;
    while i < edges.len()
        invariant
            i <= edges@.len(),
            out@.len() == i,
            forall|j: int| 0 <= j < i ==> #[trigger] out@[j]@ == call_row(edges@[j], j),
        decreases edges@.len() - i,
    {
        let e = edges[i];
        let site = if e.call_site.0 == SYNTHETIC_CALL_SITE {
            None
        } else {
            Some(e.call_site.0)
        };
        out.push(
            CallEdgeRow {
                id: (i + 1) as u64,
                call_site: site,
                caller: e.caller.0,
                callee: e.callee.0,
                resolution: word_of_resolution(e.resolution),
            },
        );
        i = i + 1;
    }
    assert(call_rows_view(out@) =~= call_rows(edges@));
    out
}

/// An argument that reaches a parameter.
#[derive(Debug, Clone, Copy, PartialEq, Eq, Structural)]
pub struct ArgFlowRow {
    pub id: u64,
    pub call_site: u32,
    pub arg_index: u32,
    pub actual_var: Option<u32>,
    pub actual_fn: Option<u32>,
    pub formal: u32,
}

pub open spec fn flow_row(e: ArgFlowEdge, i: int) -> ArgFlowRow {
    ArgFlowRow {
        id: (i + 1) as u64,
        call_site: e.call_site.0,
        arg_index: e.arg_index,
        actual_var: match e.actual_var {
            Some(v) => Some(v.0),
            None => None,
        },
        actual_fn: match e.actual_fn {
            Some(f) => Some(f.0),
            None => None,
        },
        formal: e.formal.0,
    }
}

/// One row per argument, counted from 1.
pub open spec fn flow_rows(flows: Seq<ArgFlowEdge>) -> Seq<ArgFlowRow> {
    Seq::new(flows.len(), |i: int| flow_row(flows[i], i))
}

/// The rows of the arguments.
pub fn rows_of_arguments(flows: &Vec<ArgFlowEdge>) -> (r: Vec<ArgFlowRow>)
    ensures
        r@ == flow_rows(flows@),
{
    let mut out: Vec<ArgFlowRow> = Vec::new();
    let mut i: usize = 0;
    while i < flows.len()
        invariant
            i <= flows@.len(),
            out@.len() == i,
            forall|j: int| 0 <= j < i ==> #[trigger] out@[j] == flow_row(flows@[j], j),
        decreases flows@.len() - i,
    {
        let e = flows[i];
        out.push(
            ArgFlowRow {
                id: (i + 1) as u64,
                call_site: e.call_site.0,
                arg_index: e.arg_index,
                actual_var: match e.actual_var {
                    Some(v) => Some(v.0),
                    None => None,
                },
                actual_fn: match e.actual_fn {
                    Some(f) => Some(f.0),
                    None => None,
                },
                formal: e.formal.0,
            },
        );
        i = i + 1;
    }
    assert(out@ =~= flow_rows(flows@));
    out
}

/// A type. How it is laid out stands in the type table under its number.
#[derive(Debug)]
pub struct TypeRow {
    pub id: u32,
    pub kind: String,
    pub name: String,
    pub size: u64,
}

/// The mathematical form of a [`TypeRow`].
pub struct TypeRowV {
    pub id: u32,
    pub kind: Seq<char>,
    pub name: Seq<char>,
    pub size: u64,
}

impl View for TypeRow {
    type V = TypeRowV;

    open spec fn view(&self) -> TypeRowV {
        TypeRowV { id: self.id, kind: self.kind@, name: self.name@, size: self.size }
    }
}

pub open spec fn type_rows_view(s: Seq<TypeRow>) -> Seq<TypeRowV> {
    Seq::new(s.len(), |i: int| s[i]@)
}

pub open spec fn type_row(t: TypeV) -> TypeRowV {
    TypeRowV {
        id: t.id.0,
        kind: kind_of_type(t.desc),
        name: name_of_type(t.desc),
        size: t.size,
    }
}

/// One row per type.
pub open spec fn type_rows(table: TableV) -> Seq<TypeRowV> {
    Seq::new(table.types.len(), |i: int| type_row(table.types[i]))
}

/// The rows of the types.
pub fn rows_of_types(table: &TypeTable) -> (r: Vec<TypeRow>)
    ensures
        type_rows_view(r@) == type_rows(table@),
{
    let mut out: Vec<TypeRow> = Vec::new();
    let mut i: usize = 0;
    while i < table.types.len()
        invariant
            i <= table.types@.len(),
            out@.len() == i,
            forall|j: int| 0 <= j < i ==> #[trigger] out@[j]@ == type_row(table@.types[j]),
        decreases table.types@.len() - i,
    {
        let t = &table.types[i];
        assert(table@.types[i as int] == t@);
        out.push(
            TypeRow {
                id: t.id.0,
                kind: type_kind(&t.desc),
                name: desc_name(&t.desc),
                size: t.size,
            },
        );
        i = i + 1;
    }
    assert(type_rows_view(out@) =~= type_rows(table@));
    out
}

/// What a kind of place is called in the table of places.
pub open spec fn place_name(k: LocKind) -> Seq<char> {
    match k {
        LocKind::Global => "Global"@,
        LocKind::FileStatic => "FileStatic"@,
        LocKind::FnStatic => "FnStatic"@,
        LocKind::Local => "Local"@,
        LocKind::Heap => "Heap"@,
        LocKind::Field => "Field"@,
        LocKind::FieldSummary => "FieldSummary"@,
        LocKind::ArraySummary => "ArraySummary"@,
        LocKind::Function => "Function"@,
        LocKind::StringLit => "StringLit"@,
    }
}

fn name_of_place(k: LocKind) -> (r: String)
    ensures
        r@ == place_name(k),
{
    match k {
        LocKind::Global => owned("Global"),
        LocKind::FileStatic => owned("FileStatic"),
        LocKind::FnStatic => owned("FnStatic"),
        LocKind::Local => owned("Local"),
        LocKind::Heap => owned("Heap"),
        LocKind::Field => owned("Field"),
        LocKind::FieldSummary => owned("FieldSummary"),
        LocKind::ArraySummary => owned("ArraySummary"),
        LocKind::Function => owned("Function"),
        LocKind::StringLit => owned("StringLit"),
    }
}

/// A place.
#[derive(Debug)]
pub struct LocationRow {
    pub id: u32,
    pub kind: String,
    pub desc: String,
}

pub open spec fn location_rows_view(s: Seq<LocationRow>) -> Seq<(u32, Seq<char>, Seq<char>)> {
    Seq::new(s.len(), |i: int| (s[i].id, s[i].kind@, s[i].desc@))
}

/// One row per place.
pub open spec fn location_rows(places: Seq<LocV>) -> Seq<(u32, Seq<char>, Seq<char>)> {
    Seq::new(places.len(), |i: int| (places[i].id.0, place_name(places[i].kind), places[i].desc))
}

/// The rows of the places.
pub fn rows_of_locations(pag: &Pag) -> (r: Vec<LocationRow>)
    ensures
        location_rows_view(r@) == location_rows(pag@.locations),
{
    proof {
        pag_parts(pag);
    }
    let mut out: Vec<LocationRow> = Vec::new();
    let mut i: usize = 0;
    while i < pag.locations.len()
        invariant
            i <= pag.locations@.len(),
            out@.len() == i,
            forall|j: int|
                0 <= j < i ==> (#[trigger] out@[j]).id == pag.locations@[j].id.0 && out@[j].kind@
                    == place_name(pag.locations@[j].kind) && out@[j].desc@
                    == pag.locations@[j].desc@,
        decreases pag.locations@.len() - i,
    {
        let l = &pag.locations[i];
        out.push(
            LocationRow { id: l.id.0, kind: name_of_place(l.kind), desc: l.desc.clone() },
        );
        i = i + 1;
    }
    assert(location_rows_view(out@) =~= location_rows(pag@.locations));
    out
}

/// What the first `n` of the nodes may hold, pair by pair.
pub open spec fn points_rows(points: Seq<(PagNodeId, Seq<u32>)>, n: int) -> Seq<(u32, u32)>
    decreases n,
{
    if n <= 0 {
        Seq::empty()
    } else {
        points_rows(points, n - 1) + Seq::new(
            points[n - 1].1.len(),
            |i: int| (points[n - 1].0.0, points[n - 1].1[i]),
        )
    }
}

/// What nodes may hold, pair by pair.
pub fn rows_of_points_to(result: &AnalysisResult) -> (r: Vec<(u32, u32)>)
    ensures
        r@ == points_rows(result@.points_to, result@.points_to.len() as int),
{
    let ghost points = result@.points_to;
    let mut out: Vec<(u32, u32)> = Vec::new();
    let mut i: usize = 0;
    assert(out@ =~= points_rows(points, 0));
    while i < result.points_to.len()
        invariant
            points == result@.points_to,
            i <= points.len() == result.points_to@.len(),
            out@ == points_rows(points, i as int),
        decreases points.len() - i,
    {
        let node = result.points_to[i].0.0;
        let locs = &result.points_to[i].1;
        let ghost start = out@;
        let ghost row = points[i as int];
        assert(row == (result.points_to@[i as int].0, loc_numbers(locs@)));
        let ghost more = Seq::new(row.1.len(), |k: int| (row.0.0, row.1[k]));
        let mut k: usize = 0;
        assert(out@ =~= start + more.take(0));
        while k < locs.len()
            invariant
                k <= locs@.len() == more.len(),
                row == (PagNodeId(node), loc_numbers(locs@)),
                more == Seq::new(row.1.len(), |k: int| (row.0.0, row.1[k])),
                out@ == start + more.take(k as int),
            decreases locs@.len() - k,
        {
            out.push((node, locs[k].0));
            assert(more.take(k + 1) =~= more.take(k as int).push(more[k as int]));
            assert(out@ =~= start + more.take(k + 1));
            k = k + 1;
        }
        assert(more.take(k as int) =~= more);
        assert(points_rows(points, i + 1) =~= start + more);
        i = i + 1;
    }
    out
}

/// How bad it is, in a word.
pub open spec fn severity_word(s: DiagnosticSeverity) -> Seq<char> {
    match s {
        DiagnosticSeverity::Error => "error"@,
        DiagnosticSeverity::Warning => "warning"@,
        DiagnosticSeverity::Info => "info"@,
    }
}

fn word_of_severity(s: DiagnosticSeverity) -> (r: String)
    ensures
        r@ == severity_word(s),
{
    match s {
        DiagnosticSeverity::Error => owned("error"),
        DiagnosticSeverity::Warning => owned("warning"),
        DiagnosticSeverity::Info => owned("info"),
    }
}

/// A report.
#[derive(Debug)]
pub struct DiagnosticRow {
    pub id: u64,
    pub severity: String,
    pub file: Option<u32>,
    pub line: u32,
    pub message: String,
    pub stage: String,
}

/// The mathematical form of a [`DiagnosticRow`].
pub struct DiagnosticRowV {
    pub id: u64,
    pub severity: Seq<char>,
    pub file: Option<u32>,
    pub line: u32,
    pub message: Seq<char>,
    pub stage: Seq<char>,
}

impl View for DiagnosticRow {
    type V = DiagnosticRowV;

    open spec fn view(&self) -> DiagnosticRowV {
        DiagnosticRowV {
            id: self.id,
            severity: self.severity@,
            file: self.file,
            line: self.line,
            message: self.message@,
            stage: self.stage@,
        }
    }
}

pub open spec fn report_rows_view(s: Seq<DiagnosticRow>) -> Seq<DiagnosticRowV> {
    Seq::new(s.len(), |i: int| s[i]@)
}

pub open spec fn report_row(d: ReportV, i: int) -> DiagnosticRowV {
    DiagnosticRowV {
        id: (i + 1) as u64,
        severity: severity_word(d.severity),
        file: match d.file {
            Some(f) => Some(f.0),
            None => None,
        },
        line: d.line,
        message: d.message,
        stage: d.stage,
    }
}

/// One row per report, counted from 1.
pub open spec fn report_rows(reports: Seq<ReportV>) -> Seq<DiagnosticRowV> {
    Seq::new(reports.len(), |i: int| report_row(reports[i], i))
}

/// The rows of the reports.
pub fn rows_of_diagnostics(reports: &Vec<Diagnostic>) -> (r: Vec<DiagnosticRow>)
    ensures
        report_rows_view(r@) == report_rows(reports_view(reports@)),
{
    let mut out: Vec<DiagnosticRow> = Vec::new();
    let mut i: usize = 0;
    while i < reports.len()
        invariant
            i <= reports@.len(),
            out@.len() == i,
            forall|j: int| 0 <= j < i ==> #[trigger] out@[j]@ == report_row(reports@[j]@, j),
        decreases reports@.len() - i,
    {
        let d = &reports[i];
        out.push(
            DiagnosticRow {
                id: (i + 1) as u64,
                severity: word_of_severity(d.severity),
                file: match d.file {
                    Some(f) => Some(f.0),
                    None => None,
                },
                line: d.line,
                message: d.message.clone(),
                stage: d.stage.clone(),
            },
        );
        i = i + 1;
    }
    assert(report_rows_view(out@) =~= report_rows(reports_view(reports@)));
    out
}

} // verus!
