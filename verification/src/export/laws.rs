//! What holds of the tables of every analysis.

use crate::analysis::constraints::{ArgFlowEdge, CallGraphEdge};
use crate::analysis::edges::edges_stay_in_the_program;
use crate::analysis::growth::holds;
use crate::analysis::held::held_places_exist;
use crate::analysis::laws::{looks, solved_graph};
use crate::analysis::models::ModelV;
use crate::analysis::pag::PagV;
use crate::analysis::places::graphs_are_placed;
use crate::analysis::solver::{points_of, ResultV};
use crate::analysis::state::SolverV;
use crate::index::files::{filed, fn_filed};
use crate::index::references::{refers, site_refers};
use crate::export::rows::{
    file_rows, flows_through, function_row, function_rows, has_call, in_argument, location_rows,
    points_rows, rows_of_vars, site_kept, site_row, site_rows, site_rows_are_kept, variable_row,
    variable_rows, VariableRowV,
};
use crate::ir::ids::PagNodeId;
use crate::ir::program::ProgramV;
use crate::ir::symbol::{declared_is_there, fn_position, FnV, SiteV, SymbolsV, VarV};
use vstd::prelude::*;

verus! {

/// Whether the row at the position that is the number of a file is that of the
/// file.
pub open spec fn has_file_row(s: SymbolsV, f: u32) -> bool {
    f < file_rows(s).len() && file_rows(s)[f as int].0 == f
}

proof fn rows_hold(vars: Seq<VarV>, all: bool, wanted: spec_fn(u32) -> bool, n: int)
    requires
        0 <= n <= vars.len(),
    ensures
        forall|row: VariableRowV| #[trigger]
            variable_rows(vars, all, wanted, n).contains(row) <==> exists|i: int|
                0 <= i < n && (all || wanted((#[trigger] vars[i]).id.0)) && row == variable_row(
                    vars[i],
                ),
    decreases n,
{
    if n > 0 {
        rows_hold(vars, all, wanted, n - 1);
        let before = variable_rows(vars, all, wanted, n - 1);
        let after = variable_rows(vars, all, wanted, n);
        assert forall|row: VariableRowV| #[trigger]
            after.contains(row) <==> exists|i: int|
                0 <= i < n && (all || wanted((#[trigger] vars[i]).id.0)) && row == variable_row(
                    vars[i],
                ) by {
            if after.contains(row) {
                let k = choose|k: int| 0 <= k < after.len() && after[k] == row;
                if k < before.len() {
                    assert(before[k] == row);
                    assert(before.contains(row));
                } else {
                    assert((all || wanted(vars[n - 1].id.0)) && row == variable_row(vars[n - 1]));
                }
            }
            if exists|i: int|
                0 <= i < n && (all || wanted((#[trigger] vars[i]).id.0)) && row == variable_row(
                    vars[i],
                ) {
                let i = choose|i: int|
                    0 <= i < n && (all || wanted((#[trigger] vars[i]).id.0)) && row == variable_row(
                        vars[i],
                    );
                if i < n - 1 {
                    assert(before.contains(row));
                    let k = choose|k: int| 0 <= k < before.len() && before[k] == row;
                    assert(after[k] == row);
                } else {
                    assert(after[before.len() as int] == row);
                }
            }
        }
    }
}

/// In full detail every variable has a row; else a variable has one if and
/// only if it takes part in the flow of values.
pub proof fn variables_have_rows(
    vars: Seq<VarV>,
    pag: PagV,
    result: ResultV,
    all: bool,
    row: VariableRowV,
)
    ensures
        rows_of_vars(vars, pag, result, all).contains(row) <==> exists|i: int|
            0 <= i < vars.len() && (all || flows_through(
                pag,
                result,
                (#[trigger] vars[i]).id.0,
            )) && row == variable_row(vars[i]),
{
    let wanted = |v: u32| flows_through(pag, result, v);
    rows_hold(vars, all, wanted, vars.len() as int);
    if exists|i: int|
        0 <= i < vars.len() && (all || flows_through(pag, result, (#[trigger] vars[i]).id.0))
            && row == variable_row(vars[i]) {
        let i = choose|i: int|
            0 <= i < vars.len() && (all || flows_through(pag, result, (#[trigger] vars[i]).id.0))
                && row == variable_row(vars[i]);
        assert(all || wanted(vars[i].id.0));
    }
    if rows_of_vars(vars, pag, result, all).contains(row) {
        let i = choose|i: int|
            0 <= i < vars.len() && (all || wanted((#[trigger] vars[i]).id.0)) && row
                == variable_row(vars[i]);
        assert(all || flows_through(pag, result, vars[i].id.0));
    }
}

/// A minimal export holds no variable that a full one does not.
pub proof fn full_exports_hold_minimal_ones(
    vars: Seq<VarV>,
    pag: PagV,
    result: ResultV,
    row: VariableRowV,
)
    requires
        rows_of_vars(vars, pag, result, false).contains(row),
    ensures
        rows_of_vars(vars, pag, result, true).contains(row),
{
    variables_have_rows(vars, pag, result, false, row);
    variables_have_rows(vars, pag, result, true, row);
    let i = choose|i: int|
        0 <= i < vars.len() && (false || flows_through(pag, result, (#[trigger] vars[i]).id.0))
            && row == variable_row(vars[i]);
    assert(vars[i].id.0 == vars[i].id.0);
}

/// The variables that an argument flow speaks of have rows, in a minimal
/// export too.
pub proof fn flows_have_their_variables(
    vars: Seq<VarV>,
    pag: PagV,
    result: ResultV,
    all: bool,
    e: ArgFlowEdge,
    i: int,
)
    requires
        result.arg_flow_edges.contains(e),
        0 <= i < vars.len(),
        vars[i].id == e.formal || e.actual_var == Some(vars[i].id),
    ensures
        rows_of_vars(vars, pag, result, all).contains(variable_row(vars[i])),
{
    let flows = result.arg_flow_edges;
    let k = choose|k: int| 0 <= k < flows.len() && flows[k] == e;
    assert(flows[k].formal.0 == vars[i].id.0 || flows[k].actual_var == Some(vars[i].id));
    assert(in_argument(flows, vars[i].id.0, flows.len() as int));
    assert(flows_through(pag, result, vars[i].id.0));
    variables_have_rows(vars, pag, result, all, variable_row(vars[i]));
}

/// The call site of every call edge has a row, if it is one of the program's.
pub proof fn edges_have_their_sites(
    sites: Seq<SiteV>,
    result: ResultV,
    e: CallGraphEdge,
    i: int,
)
    requires
        result.call_edges.contains(e),
        0 <= i < sites.len(),
        sites[i].id == e.call_site,
    ensures
        site_rows(sites, result, sites.len() as int).contains(site_row(sites[i])),
{
    let edges = result.call_edges;
    let k = choose|k: int| 0 <= k < edges.len() && edges[k] == e;
    assert(edges[k].call_site.0 == sites[i].id.0);
    assert(has_call(edges, sites[i].id.0, edges.len() as int));
    assert(site_kept(sites[i], result));
    site_rows_are_kept(sites, result, sites.len() as int);
}

/// A call that does not name what it calls has a row, whether or not anything
/// is known of it.
pub proof fn unresolved_calls_have_rows(sites: Seq<SiteV>, result: ResultV, i: int)
    requires
        0 <= i < sites.len(),
        !sites[i].is_direct,
    ensures
        site_rows(sites, result, sites.len() as int).contains(site_row(sites[i])),
{
    assert(site_kept(sites[i], result));
    site_rows_are_kept(sites, result, sites.len() as int);
}

/// The function that a call edge leads to has a row.
pub proof fn edges_have_their_functions(
    p: ProgramV,
    retain: bool,
    models: Seq<ModelV>,
    budget: Option<u64>,
    ipc: bool,
    e: CallGraphEdge,
)
    requires
        p.graph(models).constraints.len() <= usize::MAX,
        p.analysis(retain, models, budget, ipc).1.call_edges.contains(e),
    ensures
        exists|i: int|
            0 <= i < function_rows(p.symbols).len() && (#[trigger] function_rows(p.symbols)[i]).id
                == e.callee.0,
{
    edges_stay_in_the_program(p, retain, models, budget, ipc, e);
    let i = choose|i: int|
        0 <= i < p.symbols.functions.len() && (#[trigger] p.symbols.functions[i]).id == e.callee;
    assert(function_rows(p.symbols)[i].id == e.callee.0);
}

proof fn pairs_come_from_nodes(points: Seq<(PagNodeId, Seq<u32>)>, n: int, pair: (u32, u32))
    requires
        0 <= n <= points.len(),
        points_rows(points, n).contains(pair),
    ensures
        exists|i: int|
            0 <= i < n && (#[trigger] points[i]).0.0 == pair.0 && points[i].1.contains(pair.1),
    decreases n,
{
    if n > 0 {
        let before = points_rows(points, n - 1);
        let all = points_rows(points, n);
        let k = choose|k: int| 0 <= k < all.len() && all[k] == pair;
        if k < before.len() {
            assert(before[k] == pair);
            assert(before.contains(pair));
            pairs_come_from_nodes(points, n - 1, pair);
        } else {
            let last = points[n - 1];
            assert(all[k] == (last.0.0, last.1[k - before.len()]));
            assert(last.1.contains(pair.1));
        }
    }
}

proof fn nodes_hold_them(st: SolverV, n: int, i: int)
    requires
        0 <= i < points_of(st, n).len(),
    ensures
        points_of(st, n)[i].1 == st.pts_of(points_of(st, n)[i].0.0),
    decreases n,
{
    if n > 0 && i < points_of(st, n - 1).len() {
        nodes_hold_them(st, n - 1, i);
    }
}

/// The place that a node may hold has a row of its own, with its number, where
/// places are exported.
pub proof fn held_places_have_rows(
    p: ProgramV,
    retain: bool,
    models: Seq<ModelV>,
    budget: Option<u64>,
    ipc: bool,
    pair: (u32, u32),
)
    requires
        p.graph(models).constraints.len() <= usize::MAX,
        ({
            let points = p.analysis(retain, models, budget, ipc).1.points_to;
            points_rows(points, points.len() as int).contains(pair)
        }),
    ensures
        ({
            let rows = location_rows(p.analysis(retain, models, budget, ipc).0.locations);
            pair.1 < rows.len() && rows[pair.1 as int].0 == pair.1
        }),
{
    let g = solved_graph(p, models);
    let end = g.start(p, models).run(p, models, looks(p, models, budget));
    let points = p.analysis(retain, models, budget, ipc).1.points_to;
    pairs_come_from_nodes(points, points.len() as int, pair);
    let i = choose|i: int|
        0 <= i < points.len() && (#[trigger] points[i]).0.0 == pair.0 && points[i].1.contains(
            pair.1,
        );
    nodes_hold_them(end.st, end.pag.nodes.len() as int, i);
    assert(holds(end.st, pair.0, pair.1));
    graphs_are_placed(p, models);
    held_places_exist(g, p, models, looks(p, models, budget), pair.0, pair.1);
}

/// The function that a call site is in has a row.
pub proof fn sites_have_their_callers(s: SymbolsV, k: int)
    requires
        refers(s),
        0 <= k < s.call_sites.len(),
    ensures
        exists|i: int|
            0 <= i < function_rows(s).len() && (#[trigger] function_rows(s)[i]).id
                == site_row(s.call_sites[k]).caller,
{
    assert(site_refers(s, s.call_sites[k]));
    let i = choose|i: int|
        0 <= i < s.functions.len() && (#[trigger] s.functions[i]).id == s.call_sites[k].caller;
    assert(function_rows(s)[i].id == s.call_sites[k].caller.0);
}

/// The file that a function, a variable or a call site is in has a row.
pub proof fn files_have_rows(s: SymbolsV)
    requires
        filed(s),
    ensures
        forall|i: int|
            0 <= i < s.functions.len() ==> has_file_row(
                s,
                function_row(#[trigger] s.functions[i]).file,
            ),
        forall|i: int|
            0 <= i < s.variables.len() ==> has_file_row(
                s,
                variable_row(#[trigger] s.variables[i]).file,
            ),
        forall|k: int|
            0 <= k < s.call_sites.len() ==> has_file_row(
                s,
                site_row(#[trigger] s.call_sites[k]).file,
            ),
{
    assert forall|f: u32| f < s.files.len() implies #[trigger] has_file_row(s, f) by {
        assert(s.files[f as int].0.0 == f);
    }
    assert forall|i: int| 0 <= i < s.functions.len() implies has_file_row(
        s,
        function_row(#[trigger] s.functions[i]).file,
    ) by {
        assert(fn_filed(s.functions[i], s.files.len()));
    }
}

/// Every function has one row, which ends at the line where it starts: that of
/// the function.
pub proof fn functions_end_where_they_start(s: SymbolsV, i: int)
    requires
        0 <= i < s.functions.len(),
    ensures
        function_rows(s).len() == s.functions.len(),
        function_rows(s)[i].id == s.functions[i].id.0,
        function_rows(s)[i].file == s.functions[i].file.0,
        function_rows(s)[i].line_start == s.functions[i].span.line,
        function_rows(s)[i].line_end == s.functions[i].span.line,
{
}

/// Once a function that is known has been defined, its row is at the line of
/// the definition, in the file of the definition, wherever it was declared.
pub proof fn definitions_give_rows_their_lines(s: SymbolsV, func: FnV)
    requires
        func.is_defined,
        s.declared(func) is Some,
    ensures
        ({
            let (t, id) = s.with_function(func);
            let row = function_rows(t)[fn_position(s.functions, id, 0)];
            &&& function_rows(t).len() == function_rows(s).len()
            &&& row.id == id.0
            &&& row.is_defined
            &&& row.file == func.file.0
            &&& row.line_start == func.span.line
            &&& row.line_end == func.span.line
        }),
{
    declared_is_there(s, func);
}

} // verus!
