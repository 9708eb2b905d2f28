//! What a run reports.

use crate::analysis::constraints::{CallGraphEdge, ResolutionKind};
use crate::analysis::solver::{AnalysisResult, ResultV};
use crate::ir::program::{Program, ProgramV};
use crate::ir::symbol::{FnV, SymbolTable};
use crate::text::{cat2, cat3, decimal, decimal_of};
use vstd::prelude::*;

verus! {

/// How many calls were found in which way. Calls by a name that several
/// functions have count as direct: no pointer is involved.
#[derive(Debug, Clone, Copy, PartialEq, Eq, Structural)]
pub struct EdgeCounts {
    pub direct: usize,
    pub indirect: usize,
    pub external: usize,
    pub ipc: usize,
}

/// How many of the first `n` calls were found in one of two ways.
pub open spec fn count_of(
    edges: Seq<CallGraphEdge>,
    a: ResolutionKind,
    b: ResolutionKind,
    n: int,
) -> nat
    decreases n,
{
    if n <= 0 {
        0
    } else {
        count_of(edges, a, b, n - 1) + if edges[n - 1].resolution == a || edges[n - 1].resolution
            == b {
            1nat
        } else {
            0nat
        }
    }
}

impl EdgeCounts {
    /// Whether these are the counts of the first `n` calls.
    pub open spec fn are_of(self, edges: Seq<CallGraphEdge>, n: int) -> bool {
        &&& self.direct == count_of(edges, ResolutionKind::Direct, ResolutionKind::Ambiguous, n)
        &&& self.indirect == count_of(
            edges,
            ResolutionKind::Indirect,
            ResolutionKind::Indirect,
            n,
        )
        &&& self.external == count_of(
            edges,
            ResolutionKind::External,
            ResolutionKind::External,
            n,
        )
        &&& self.ipc == count_of(edges, ResolutionKind::IpcBridge, ResolutionKind::IpcBridge, n)
    }
}

/// Every call is counted once.
pub proof fn counts_add_up(edges: Seq<CallGraphEdge>, n: int)
    requires
        0 <= n <= edges.len(),
    ensures
        count_of(edges, ResolutionKind::Direct, ResolutionKind::Ambiguous, n) + count_of(
            edges,
            ResolutionKind::Indirect,
            ResolutionKind::Indirect,
            n,
        ) + count_of(edges, ResolutionKind::External, ResolutionKind::External, n) + count_of(
            edges,
            ResolutionKind::IpcBridge,
            ResolutionKind::IpcBridge,
            n,
        ) == n,
    decreases n,
{
    if n > 0 {
        counts_add_up(edges, n - 1);
    }
}

/// Counts the calls by how they were found.
pub fn count_edges(edges: &Vec<CallGraphEdge>) -> (r: EdgeCounts)
    ensures
        r.are_of(edges@, edges@.len() as int),
{
    let mut r = EdgeCounts { direct: 0, indirect: 0, external: 0, ipc: 0 };
    let mut i: usize = 0;
    while i < edges.len()
        invariant
            i <= edges@.len(),
            r.are_of(edges@, i as int),
            r.direct + r.indirect + r.external + r.ipc == i,
        decreases edges@.len() - i,
    {
        match edges[i].resolution {
            ResolutionKind::Direct | ResolutionKind::Ambiguous => {
                r.direct = r.direct + 1;
            },
            ResolutionKind::Indirect => {
                r.indirect = r.indirect + 1;
            },
            ResolutionKind::External => {
                r.external = r.external + 1;
            },
            ResolutionKind::IpcBridge => {
                r.ipc = r.ipc + 1;
            },
        }
        i = i + 1;
    }
    r
}

/// How many of the first `n` functions have no body in the program.
pub open spec fn bodiless(fns: Seq<FnV>, n: int) -> nat
    decreases n,
{
    if n <= 0 {
        0
    } else {
        bodiless(fns, n - 1) + if fns[n - 1].is_defined {
            0nat
        } else {
            1nat
        }
    }
}

/// Counts the functions that have no body in the program.
pub fn count_external(symbols: &SymbolTable) -> (r: usize)
    ensures
        r == bodiless(symbols@.functions, symbols@.functions.len() as int),
{
    let mut r: usize = 0;
    let mut i: usize = 0;
    while i < symbols.function_count()
        invariant
            r <= i <= symbols@.functions.len(),
            r == bodiless(symbols@.functions, i as int),
        decreases symbols@.functions.len() - i,
    {
        if !symbols.function_at(i).is_defined {
            r = r + 1;
        }
        i = i + 1;
    }
    r
}

/// What was read, in parentheses.
pub open spec fn index_note(p: ProgramV) -> Seq<char> {
    "("@ + decimal_of(p.symbols.files.len()) + " files, "@ + decimal_of(p.symbols.functions.len())
        + " functions, "@ + decimal_of(p.flow.len()) + " flow)"@
}

/// What was read, in parentheses.
pub fn note_on_index(p: &Program) -> (r: String)
    ensures
        r@ == index_note(p@),
{
    let files = cat3("(", decimal(p.symbols.file_count() as u64).as_str(), " files, ");
    let fns = cat3(
        files.as_str(),
        decimal(p.symbols.function_count() as u64).as_str(),
        " functions, ",
    );
    cat3(fns.as_str(), decimal(p.flow.len() as u64).as_str(), " flow)")
}

/// What was found, in parentheses.
pub open spec fn analysis_note(result: ResultV) -> Seq<char> {
    "("@ + decimal_of(result.call_edges.len()) + " edges, "@ + decimal_of(
        count_of(
            result.call_edges,
            ResolutionKind::Indirect,
            ResolutionKind::Indirect,
            result.call_edges.len() as int,
        ),
    ) + " indirect)"@
}

/// What was found, in parentheses.
pub fn note_on_analysis(result: &AnalysisResult) -> (r: String)
    ensures
        r@ == analysis_note(result@),
{
    let counts = count_edges(&result.call_edges);
    let edges = cat3("(", decimal(result.call_edges.len() as u64).as_str(), " edges, ");
    cat3(edges.as_str(), decimal(counts.indirect as u64).as_str(), " indirect)")
}

/// Which models of functions a run works with.
pub open spec fn models_note(functions: nat, files: nat) -> Seq<char> {
    if files == 0 {
        "models: built-in ("@ + decimal_of(functions) + " functions)"@
    } else {
        "models: "@ + decimal_of(functions) + " functions (built-ins + "@ + decimal_of(files)
            + " config file(s))"@
    }
}

/// Which models of functions a run works with.
pub fn note_on_models(functions: usize, files: usize) -> (r: String)
    ensures
        r@ == models_note(functions as nat, files as nat),
{
    if files == 0 {
        cat3("models: built-in (", decimal(functions as u64).as_str(), " functions)")
    } else {
        let fns = cat3(
            "models: ",
            decimal(functions as u64).as_str(),
            " functions (built-ins + ",
        );
        cat3(fns.as_str(), decimal(files as u64).as_str(), " config file(s))")
    }
}

/// The last line of a run.
pub open spec fn summary_line(p: ProgramV, result: ResultV, output: Seq<char>) -> Seq<char> {
    let edges = result.call_edges;
    let n = edges.len() as int;
    "analysis complete: "@ + decimal_of(p.symbols.functions.len()) + " functions ("@ + decimal_of(
        bodiless(p.symbols.functions, p.symbols.functions.len() as int),
    ) + " external), "@ + decimal_of(edges.len()) + " call edges ("@ + decimal_of(
        count_of(edges, ResolutionKind::Direct, ResolutionKind::Ambiguous, n),
    ) + " direct, "@ + decimal_of(
        count_of(edges, ResolutionKind::Indirect, ResolutionKind::Indirect, n),
    ) + " indirect, "@ + decimal_of(
        count_of(edges, ResolutionKind::External, ResolutionKind::External, n),
    ) + " external, "@ + decimal_of(
        count_of(edges, ResolutionKind::IpcBridge, ResolutionKind::IpcBridge, n),
    ) + " ipc), "@ + decimal_of(result.arg_flow_edges.len()) + " arg-flow edges -> "@ + output
}

/// The last line of a run.
pub fn summary(p: &Program, result: &AnalysisResult, output: &str) -> (r: String)
    ensures
        r@ == summary_line(p@, result@, output@),
{
    let counts = count_edges(&result.call_edges);
    let external = count_external(&p.symbols);
    let mut t = cat3(
        "analysis complete: ",
        decimal(p.symbols.function_count() as u64).as_str(),
        " functions (",
    );
    t = cat3(t.as_str(), decimal(external as u64).as_str(), " external), ");
    t = cat3(t.as_str(), decimal(result.call_edges.len() as u64).as_str(), " call edges (");
    t = cat3(t.as_str(), decimal(counts.direct as u64).as_str(), " direct, ");
    t = cat3(t.as_str(), decimal(counts.indirect as u64).as_str(), " indirect, ");
    t = cat3(t.as_str(), decimal(counts.external as u64).as_str(), " external, ");
    t = cat3(t.as_str(), decimal(counts.ipc as u64).as_str(), " ipc), ");
    t = cat3(
        t.as_str(),
        decimal(result.arg_flow_edges.len() as u64).as_str(),
        " arg-flow edges -> ",
    );
    cat2(t.as_str(), output)
}

} // verus!
