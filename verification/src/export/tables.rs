//! All tables of an export.

use crate::analysis::pag::{Pag, PagV};
use crate::analysis::solver::{AnalysisResult, ResultV};
use crate::export::flow_graph::{
    edge_before, flow_graph, flow_nodes_view, graph, FlowEdge, FlowGraph,
};
use crate::export::options::ExportOptions;
use crate::export::rows::{
    call_rows, call_rows_view, file_rows, file_rows_view, flow_rows, function_rows,
    function_rows_view, location_rows, location_rows_view, points_rows, report_rows,
    report_rows_view, rows_of_arguments, rows_of_call_sites, rows_of_calls, rows_of_diagnostics,
    rows_of_files, rows_of_functions, rows_of_locations, rows_of_points_to, rows_of_types,
    rows_of_variables, rows_of_vars, site_rows, site_rows_view, type_rows, type_rows_view,
    variable_rows_view, ArgFlowRow, CallEdgeRow, CallSiteRow, DiagnosticRow, FileRow, FunctionRow,
    LocationRow, TypeRow, VariableRow,
};
use crate::ir::program::{Program, ProgramV};
use vstd::prelude::*;

verus! {

/// The rows of all tables.
#[derive(Debug)]
pub struct Tables {
    pub files: Vec<FileRow>,
    pub functions: Vec<FunctionRow>,
    pub call_sites: Vec<CallSiteRow>,
    pub call_edges: Vec<CallEdgeRow>,
    pub types: Vec<TypeRow>,
    pub variables: Vec<VariableRow>,
    pub locations: Vec<LocationRow>,
    pub arg_flow: Vec<ArgFlowRow>,
    pub flow: FlowGraph,
    pub points_to: Vec<(u32, u32)>,
    pub diagnostics: Vec<DiagnosticRow>,
}

impl Tables {
    /// Whether these are the tables of an analysis. Types and places are
    /// there in full detail only, what nodes may hold where it is asked for.
    pub open spec fn are_of(
        self,
        p: ProgramV,
        pag: PagV,
        result: ResultV,
        include_points_to: bool,
        full_detail: bool,
    ) -> bool {
        &&& file_rows_view(self.files@) == file_rows(p.symbols)
        &&& function_rows_view(self.functions@) == function_rows(p.symbols)
        &&& site_rows_view(self.call_sites@) == site_rows(
            p.symbols.call_sites,
            result,
            p.symbols.call_sites.len() as int,
        )
        &&& call_rows_view(self.call_edges@) == call_rows(result.call_edges)
        &&& variable_rows_view(self.variables@) == rows_of_vars(
            p.symbols.variables,
            pag,
            result,
            full_detail,
        )
        &&& if full_detail {
            type_rows_view(self.types@) == type_rows(p.types) && location_rows_view(
                self.locations@,
            ) == location_rows(pag.locations)
        } else {
            self.types@.len() == 0 && self.locations@.len() == 0
        }
        &&& self.arg_flow@ == flow_rows(result.arg_flow_edges)
        &&& flow_nodes_view(self.flow.nodes@) == graph(p, pag, result).nodes
        &&& (forall|i: int, j: int|
            0 <= i < j < self.flow.edges@.len() ==> edge_before(
                #[trigger] self.flow.edges@[i],
                #[trigger] self.flow.edges@[j],
            ))
        &&& (forall|e: FlowEdge| #[trigger]
            self.flow.edges@.contains(e) <==> graph(p, pag, result).edges.contains(e))
        &&& if include_points_to {
            self.points_to@ == points_rows(result.points_to, result.points_to.len() as int)
        } else {
            self.points_to@.len() == 0
        }
        &&& report_rows_view(self.diagnostics@) == report_rows(p.diagnostics)
    }
}

/// The tables of an analysis.
pub fn tables_of(
    program: &Program,
    pag: &Pag,
    result: &AnalysisResult,
    opts: &ExportOptions,
) -> (r: Tables)
    ensures
        r.are_of(program@, pag@, result@, opts.include_points_to, opts.full_detail),
{
    Tables {
        files: rows_of_files(&program.symbols),
        functions: rows_of_functions(&program.symbols),
        call_sites: rows_of_call_sites(&program.symbols, result),
        call_edges: rows_of_calls(&result.call_edges),
        types: if opts.full_detail {
            rows_of_types(&program.types)
        } else {
            Vec::new()
        },
        variables: rows_of_variables(&program.symbols, pag, result, opts.full_detail),
        locations: if opts.full_detail {
            rows_of_locations(pag)
        } else {
            Vec::new()
        },
        arg_flow: rows_of_arguments(&result.arg_flow_edges),
        flow: flow_graph(program, pag, result),
        points_to: if opts.include_points_to {
            rows_of_points_to(result)
        } else {
            Vec::new()
        },
        diagnostics: rows_of_diagnostics(&program.diagnostics),
    }
}

} // verus!
