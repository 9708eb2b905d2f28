//! Rows tell what they are rows of.

use crate::analysis::constraints::{ArgFlowEdge, CallGraphEdge, ResolutionKind};
use crate::analysis::solver::SYNTHETIC_CALL_SITE;
use crate::export::rows::{
    call_rows, flow_rows, function_row, linkage_word, report_rows, resolution_word, severity_word,
    site_row, storage_word, type_rows, variable_row,
};
use crate::ir::diagnostic::{DiagnosticSeverity, ReportV};
use crate::ir::ids::{CallSiteId, FnId};
use crate::ir::symbol::{FnV, Linkage, SiteV, StorageClass, VarV};
use crate::ir::types::{kind_of_type, name_of_type, DescV, TableV};
use vstd::prelude::*;

verus! {

proof fn ways_differ()
    ensures
        "direct"@.len() == 6,
        "indirect"@.len() == 8 && "indirect"@[0] == 'i',
        "ambiguous"@.len() == 9,
        "external"@.len() == 8 && "external"@[0] == 'e',
        "ipc"@.len() == 3,
{
    reveal_strlit("direct");
    reveal_strlit("indirect");
    reveal_strlit("ambiguous");
    reveal_strlit("external");
    reveal_strlit("ipc");
}

/// The words for the ways in which calls are found tell them apart.
pub proof fn words_tell_ways_apart(a: ResolutionKind, b: ResolutionKind)
    requires
        resolution_word(a) == resolution_word(b),
    ensures
        a == b,
{
    ways_differ();
}

/// There is one row for every call, in their order: it leads from the caller to
/// the callee, and names the call site where there is one and the way in which
/// the call was found.
pub proof fn rows_of_calls_tell_who_calls_whom(edges: Seq<CallGraphEdge>, i: int)
    requires
        0 <= i < edges.len() < u64::MAX,
    ensures
        ({
            let row = call_rows(edges)[i];
            let e = edges[i];
            &&& call_rows(edges).len() == edges.len()
            &&& row.id == i + 1
            &&& FnId(row.caller) == e.caller
            &&& FnId(row.callee) == e.callee
            &&& e.call_site.0 == SYNTHETIC_CALL_SITE ==> row.call_site is None
            &&& e.call_site.0 != SYNTHETIC_CALL_SITE ==> row.call_site is Some && CallSiteId(
                row.call_site->0,
            ) == e.call_site
            &&& row.resolution == (match e.resolution {
                ResolutionKind::Direct => "direct"@,
                ResolutionKind::Indirect => "indirect"@,
                ResolutionKind::Ambiguous => "ambiguous"@,
                ResolutionKind::External => "external"@,
                ResolutionKind::IpcBridge => "ipc"@,
            })
        }),
{
}

/// Calls with the same rows are the same calls.
pub proof fn rows_of_calls_lose_nothing(a: Seq<CallGraphEdge>, b: Seq<CallGraphEdge>)
    requires
        call_rows(a) == call_rows(b),
    ensures
        a == b,
{
    assert(call_rows(a).len() == a.len() && call_rows(b).len() == b.len());
    assert forall|i: int| 0 <= i < a.len() implies #[trigger] a[i] == b[i] by {
        let row = call_rows(a)[i];
        assert(row == call_rows(b)[i]);
        words_tell_ways_apart(a[i].resolution, b[i].resolution);
        assert(a[i].caller == FnId(row.caller) && b[i].caller == FnId(row.caller));
        assert(a[i].callee == FnId(row.callee) && b[i].callee == FnId(row.callee));
        assert(a[i].call_site.0 == b[i].call_site.0);
    }
    assert(a =~= b);
}

/// There is one row for every argument that is handed on, in their order, with
/// the call, the position, what is passed, and the parameter that takes it.
pub proof fn rows_of_arguments_tell_what_goes_where(flows: Seq<ArgFlowEdge>, i: int)
    requires
        0 <= i < flows.len() < u64::MAX,
    ensures
        ({
            let row = flow_rows(flows)[i];
            let e = flows[i];
            &&& flow_rows(flows).len() == flows.len()
            &&& row.id == i + 1
            &&& row.call_site == e.call_site.0
            &&& row.arg_index == e.arg_index
            &&& row.formal == e.formal.0
            &&& row.actual_var is Some <==> e.actual_var is Some
            &&& e.actual_var matches Some(v) ==> row.actual_var == Some(v.0)
            &&& row.actual_fn is Some <==> e.actual_fn is Some
            &&& e.actual_fn matches Some(f) ==> row.actual_fn == Some(f.0)
        }),
{
}

/// The row of a call site tells who calls, where, and by what text.
pub proof fn rows_of_sites_tell_where_calls_are(s: SiteV)
    ensures
        site_row(s).id == s.id.0,
        site_row(s).caller == s.caller.0,
        site_row(s).file == s.span.file.0,
        site_row(s).line == s.span.line,
        site_row(s).col == s.span.col,
        site_row(s).callee_text == s.callee_name,
        site_row(s).is_direct == s.is_direct,
{
}

/// The row of a variable tells what it is called, where it lives and where it is
/// declared.
pub proof fn rows_of_variables_tell_where_they_live(v: VarV)
    ensures
        variable_row(v).id == v.id.0,
        variable_row(v).name == v.name,
        variable_row(v).type_id == v.type_id.0,
        variable_row(v).file == v.span.file.0,
        variable_row(v).line == v.span.line,
        variable_row(v).col == v.span.col,
        v.fn_id matches Some(f) ==> variable_row(v).fn_id == Some(f.0),
        v.fn_id is None ==> variable_row(v).fn_id is None,
        variable_row(v).kind == (match v.storage {
            StorageClass::Global => "global"@,
            StorageClass::FileStatic => "file_static"@,
            StorageClass::FnStatic => "fn_static"@,
            StorageClass::Param => "param"@,
            StorageClass::Local => "local"@,
        }),
{
}

/// The words for where variables live tell these apart.
pub proof fn words_tell_lives_apart(a: StorageClass, b: StorageClass)
    requires
        storage_word(a) == storage_word(b),
    ensures
        a == b,
{
    reveal_strlit("global");
    reveal_strlit("file_static");
    reveal_strlit("fn_static");
    reveal_strlit("param");
    reveal_strlit("local");
    assert("global"@.len() == 6 && "file_static"@.len() == 11 && "fn_static"@.len() == 9);
    assert("param"@[0] == 'p' && "param"@.len() == 5 && "local"@[0] == 'l' && "local"@.len() == 5);
}

/// The row of a function tells what it is called, whether others can see it, and
/// whether it has a body.
pub proof fn rows_of_functions_tell_who_sees_them(f: FnV, g: FnV)
    ensures
        function_row(f).id == f.id.0,
        function_row(f).name == f.name,
        function_row(f).file == f.file.0,
        function_row(f).is_defined == f.is_defined,
        function_row(f).linkage == function_row(g).linkage ==> f.linkage == g.linkage,
        f.linkage == Linkage::Internal ==> function_row(f).linkage == "internal"@,
        f.linkage == Linkage::External ==> function_row(f).linkage == "external"@,
{
    reveal_strlit("internal");
    reveal_strlit("external");
    reveal_strlit("none");
    assert("internal"@[0] == 'i' && "external"@[0] == 'e' && "none"@[0] == 'n');
    assert(linkage_word(f.linkage) == function_row(f).linkage);
}

/// There is one row for every report, in their order, with how bad it is, where
/// it is and what it says.
pub proof fn rows_of_reports_tell_what_is_wrong(reports: Seq<ReportV>, i: int)
    requires
        0 <= i < reports.len() < u64::MAX,
    ensures
        ({
            let row = report_rows(reports)[i];
            let d = reports[i];
            &&& report_rows(reports).len() == reports.len()
            &&& row.id == i + 1
            &&& row.message == d.message
            &&& row.stage == d.stage
            &&& row.line == d.line
            &&& d.file matches Some(f) ==> row.file == Some(f.0)
            &&& d.file is None ==> row.file is None
            &&& row.severity == (match d.severity {
                DiagnosticSeverity::Error => "error"@,
                DiagnosticSeverity::Warning => "warning"@,
                DiagnosticSeverity::Info => "info"@,
            })
        }),
{
}

/// The words for how bad reports are tell these apart.
pub proof fn words_tell_severities_apart(a: DiagnosticSeverity, b: DiagnosticSeverity)
    requires
        severity_word(a) == severity_word(b),
    ensures
        a == b,
{
    reveal_strlit("error");
    reveal_strlit("warning");
    reveal_strlit("info");
    assert("error"@.len() == 5 && "warning"@.len() == 7 && "info"@.len() == 4);
}

/// There is one row for every type, in their order, with its identifier and its
/// size.
pub proof fn rows_of_types_tell_their_size(table: TableV, i: int)
    requires
        0 <= i < table.types.len(),
    ensures
        type_rows(table).len() == table.types.len(),
        type_rows(table)[i].id == table.types[i].id.0,
        type_rows(table)[i].size == table.types[i].size,
        type_rows(table)[i].name == name_of_type(table.types[i].desc),
{
}

/// A pointer is called what it points to is called, with a star behind; an array
/// what its elements are called, with brackets behind; and a structure or union
/// goes by its tag.
pub proof fn types_go_by_their_names(
    inner: DescV,
    tag: Seq<char>,
    fields: Seq<(Seq<char>, DescV)>,
)
    ensures
        name_of_type(DescV::Ptr(Box::new(inner))) == name_of_type(inner) + "*"@,
        name_of_type(DescV::Array { elem: Box::new(inner), size: None }) == name_of_type(inner)
            + "["@ + "]"@,
        name_of_type(DescV::Struct { name: tag, fields }) == tag,
        name_of_type(DescV::Union { name: tag, fields }) == tag,
        kind_of_type(DescV::Ptr(Box::new(inner))) == "ptr"@,
        kind_of_type(DescV::Struct { name: tag, fields }) == "struct"@,
        kind_of_type(DescV::Union { name: tag, fields }) == "union"@,
{
    let base = name_of_type(inner) + "["@;
    assert(base + Seq::<char>::empty() =~= base);
}

} // verus!
