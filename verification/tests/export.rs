//! The tables of an analysis.

use trace::analysis::models::FnModelSet;
use trace::analysis::pag::Pag;
use trace::analysis::solver::{analyze_with_options, AnalysisResult, AnalyzeOptions};
use trace::export::flow_graph::{flow_graph, word_of_edge, FlowEdgeKind};
use trace::export::options::{options_json, ExportOptions};
use trace::export::tables::tables_of;
use trace::index::project::build_program;
use trace::ir::program::Program;
use trace::preproc::options::{PreprocessOptions, SourceTree};

fn build(files: &[(&str, &str)], retain: bool) -> (Program, Pag, AnalysisResult) {
    let mut tree = SourceTree::new();
    let mut listed = Vec::new();
    for (path, text) in files {
        tree.add_file(path, text);
        listed.push(path.to_string());
    }
    let opts = PreprocessOptions::new()
        .with_include("/src")
        .with_define("LIMIT", "7")
        .with_tree(tree);
    let program = build_program("/src", &listed, opts).expect("build program");
    let (pag, result) = analyze_with_options(
        &program,
        AnalyzeOptions {
            retain_points_to: retain,
            models: FnModelSet::builtin(),
            solve_budget: None,
            enable_ipc: true,
        },
    );
    (program, pag, result)
}

const FIELDS: &[(&str, &str)] = &[(
    "/src/ops.c",
    "struct ops { int (*run)(int); };\n\
     static int fast(int n) { return n; }\n\
     static int slow(int n) { return n; }\n\
     static struct ops table = { .run = fast };\n\
     struct ops other = { .run = slow };\n\
     int start(int n) {\n    int (*cb)(int) = slow;\n    return table.run(n) + cb(n) + missing(n);\n}\n\
     int main(void) {\n    static int seed;\n    return start(seed);\n}\n",
)];

#[test]
fn export_sqlite_roundtrip() {
    let (program, pag, result) = build(
        &[
            (
                "/src/main.c",
                "#include \"helper.h\"\nint main(void) {\n    return helper(1);\n}\n",
            ),
            ("/src/helper.h", "int helper(int x);\n"),
            (
                "/src/helper.c",
                "#include \"helper.h\"\nint helper(int x) {\n    return x + 1;\n}\n",
            ),
        ],
        false,
    );
    let tables = tables_of(
        &program,
        &pag,
        &result,
        &ExportOptions::minimal("trace.db".to_string()),
    );
    assert!(tables.functions.len() >= 2);
    assert!(!tables.call_edges.is_empty());
    assert_eq!(tables.call_edges.len(), result.call_edges.len());
    assert_eq!(tables.files.len(), 3);
    let mut paths: Vec<&str> = tables.files.iter().map(|f| f.path.as_str()).collect();
    paths.sort();
    assert_eq!(paths, vec!["/src/helper.c", "/src/helper.h", "/src/main.c"]);
    let main = tables
        .functions
        .iter()
        .find(|f| f.name == "main")
        .expect("main");
    assert_eq!(main.line_start, 2);
    assert!(main.line_end >= main.line_start);
    assert_eq!(main.linkage, "external");
    assert_eq!(main.signature, "fn_main");
    assert!(main.is_defined);
    let helper = tables
        .functions
        .iter()
        .find(|f| f.name == "helper" && f.is_defined)
        .expect("helper");
    let row = &tables.call_edges[0];
    assert_eq!(row.id, 1);
    assert_eq!(row.caller, main.id);
    assert_eq!(row.callee, helper.id);
    assert_eq!(row.resolution, "direct");
    let site = tables
        .call_sites
        .iter()
        .find(|s| Some(s.id) == row.call_site)
        .expect("site");
    assert_eq!(site.line, 3);
    assert_eq!(site.callee_text, "helper");
    assert!(site.is_direct);
    assert!(tables.types.is_empty());
    assert!(tables.locations.is_empty());
    assert!(tables.points_to.is_empty());
    assert!(tables.diagnostics.is_empty());
}

#[test]
fn full_exports_hold_everything() {
    let (program, pag, result) = build(FIELDS, true);
    let tables = tables_of(
        &program,
        &pag,
        &result,
        &ExportOptions {
            output: "trace.db".to_string(),
            include_points_to: true,
            full_detail: true,
            model_files: Vec::new(),
        },
    );
    assert_eq!(tables.variables.len(), program.symbols.variables.len());
    let kind = |name: &str| {
        tables
            .variables
            .iter()
            .find(|v| v.name == name)
            .map(|v| v.kind.clone())
    };
    assert_eq!(kind("table").as_deref(), Some("file_static"));
    assert_eq!(kind("other").as_deref(), Some("global"));
    assert_eq!(kind("seed").as_deref(), Some("fn_static"));
    assert_eq!(kind("cb").as_deref(), Some("local"));
    assert_eq!(kind("n").as_deref(), Some("param"));
    assert!(tables.types.iter().any(|t| t.kind == "struct" && t.name == "ops"));
    assert!(tables.locations.iter().any(|l| l.kind == "Function" && l.desc == "fast"));
    assert!(!tables.points_to.is_empty());
    let fast = tables.functions.iter().find(|f| f.name == "fast").expect("fast");
    assert_eq!(fast.linkage, "internal");
    let missing = tables.functions.iter().find(|f| f.name == "missing").expect("missing");
    assert!(!missing.is_defined);
    assert!(tables
        .call_edges
        .iter()
        .any(|e| e.callee == missing.id && e.resolution == "external"));
    assert!(tables
        .call_edges
        .iter()
        .any(|e| e.callee == fast.id && e.resolution == "indirect"));
}

#[test]
fn points_to_needs_to_be_retained() {
    let (program, pag, result) = build(FIELDS, false);
    let tables = tables_of(
        &program,
        &pag,
        &result,
        &ExportOptions {
            output: "trace.db".to_string(),
            include_points_to: true,
            full_detail: false,
            model_files: Vec::new(),
        },
    );
    assert!(tables.points_to.is_empty());
}

#[test]
fn unresolved_calls_keep_their_sites() {
    let (program, pag, result) = build(
        &[(
            "/src/a.c",
            "struct s { int (*f)(void); };\nint go(struct s *p) {\n    return p->f();\n}\n",
        )],
        false,
    );
    let tables = tables_of(
        &program,
        &pag,
        &result,
        &ExportOptions::minimal("trace.db".to_string()),
    );
    assert!(tables.call_edges.is_empty());
    assert_eq!(tables.call_sites.len(), 1);
    assert_eq!(tables.call_sites[0].callee_text, "p->f");
    assert!(!tables.call_sites[0].is_direct);
    assert_eq!(tables.call_sites[0].line, 3);
}

#[test]
fn bridges_have_no_call_site() {
    let (program, pag, result) = build(
        &[
            (
                "/src/foo_proxy.cpp",
                "class IFooProxy {\npublic:\n    int GetInfo(int id);\n};\n\
                 int IFooProxy::GetInfo(int id)\n{\n    return SendRequest(1, id);\n}\n",
            ),
            (
                "/src/foo_stub.cpp",
                "class IFooStub {\npublic:\n    int OnRemoteRequest(int code, int id);\n    int HandleGetInfo(int id);\n};\n\
                 int IFooStub::OnRemoteRequest(int code, int id)\n{\n    switch (code) {\n    case 1: return HandleGetInfo(id);\n    }\n    return 0;\n}\n\
                 int IFooStub::HandleGetInfo(int id)\n{\n    return id;\n}\n",
            ),
        ],
        false,
    );
    let tables = tables_of(
        &program,
        &pag,
        &result,
        &ExportOptions::minimal("trace.db".to_string()),
    );
    let bridges: Vec<_> = tables
        .call_edges
        .iter()
        .filter(|e| e.resolution == "ipc")
        .collect();
    assert!(!bridges.is_empty());
    assert!(bridges.iter().all(|e| e.call_site.is_none()));
    assert!(tables
        .call_edges
        .iter()
        .filter(|e| e.resolution != "ipc")
        .all(|e| e.call_site.is_some()));
}

#[test]
fn flow_edges_are_in_order() {
    let (program, pag, result) = build(FIELDS, false);
    let graph = flow_graph(&program, &pag, &result);
    assert!(graph.nodes.len() >= pag.nodes.len());
    let keys: Vec<(u32, u32, String)> = graph
        .edges
        .iter()
        .map(|e| (e.src, e.dst, word_of_edge(e.kind)))
        .collect();
    for pair in keys.windows(2) {
        assert!(pair[0] < pair[1], "{pair:?}");
    }
    assert!(keys.iter().any(|k| k.2 == "addr_of"));
    assert!(keys.iter().any(|k| k.2 == "points_to"));
    assert!(keys.iter().any(|k| k.2 == "gep"));
    let n = graph
        .nodes
        .iter()
        .find(|n| n.kind == "var" && n.label == "cb")
        .expect("cb");
    assert_eq!(n.detail, "local @7 in start");
    assert!(graph
        .nodes
        .iter()
        .any(|n| n.kind == "loc" && n.label == "fn:slow" && n.detail == "function"));
    assert!(graph
        .nodes
        .iter()
        .any(|n| n.kind == "call_target" && n.label == "cb" && n.detail == "call @8"));
}

#[test]
fn edge_kinds_have_their_words() {
    let words: Vec<String> = [
        FlowEdgeKind::AddrOf,
        FlowEdgeKind::CallArg,
        FlowEdgeKind::Copy,
        FlowEdgeKind::Dlsym,
        FlowEdgeKind::Gep,
        FlowEdgeKind::Load,
        FlowEdgeKind::Storage,
        FlowEdgeKind::Store,
        FlowEdgeKind::Terminates,
    ]
    .iter()
    .map(|k| word_of_edge(*k))
    .collect();
    assert_eq!(
        words,
        vec![
            "addr_of",
            "call_arg",
            "copy",
            "dlsym",
            "gep",
            "load",
            "points_to",
            "store",
            "terminates"
        ]
    );
    let mut sorted = words.clone();
    sorted.sort();
    assert_eq!(words, sorted);
}

#[test]
fn cleared_arguments_end_their_flow() {
    let (program, pag, result) = build(
        &[(
            "/src/a.c",
            "int wipe(char *secret) {\n    free(secret);\n    return 0;\n}\n",
        )],
        false,
    );
    let graph = flow_graph(&program, &pag, &result);
    let ends: Vec<_> = graph.nodes.iter().filter(|n| n.kind == "terminator").collect();
    assert_eq!(ends.len(), 1);
    assert_eq!(result.terminator_events.len(), 1);
    for n in ends {
        assert_eq!(n.label, "free clears arg0");
        assert_eq!(n.detail, "call @2 in wipe");
        assert!(graph
            .edges
            .iter()
            .any(|e| e.dst as u64 == n.id && e.kind == FlowEdgeKind::Terminates));
    }
}

#[test]
fn options_are_written_as_json() {
    let (program, _pag, _result) = build(&[("/src/a.c", "int a;\n")], false);
    let mut opts = ExportOptions::minimal("trace.db".to_string());
    opts.full_detail = true;
    opts.model_files.push("models \"x\".toml".to_string());
    let text = options_json(&program, &opts);
    let value: serde_json::Value = serde_json::from_str(&text).expect("json");
    assert_eq!(value["full_detail"], serde_json::Value::from(true));
    assert_eq!(value["include_points_to"], serde_json::Value::from(false));
    assert_eq!(
        value["model_files"],
        serde_json::Value::from(vec!["models \"x\".toml"])
    );
    assert_eq!(value["defines"]["LIMIT"], serde_json::Value::from("7"));
    assert_eq!(value["include_paths"][0], serde_json::Value::from("/src"));
    assert_eq!(value.as_object().expect("object").len(), 5);
}

#[test]
fn diagnostics_keep_their_order() {
    let (program, pag, result) = build(
        &[("/src/a.c", "int f(void) { return 0; }\nint g( {\n")],
        false,
    );
    let tables = tables_of(
        &program,
        &pag,
        &result,
        &ExportOptions::minimal("trace.db".to_string()),
    );
    assert!(!tables.diagnostics.is_empty());
    assert_eq!(tables.diagnostics.len(), program.diagnostics.len());
    for (i, d) in tables.diagnostics.iter().enumerate() {
        assert_eq!(d.id, i as u64 + 1);
    }
    assert_eq!(tables.diagnostics[0].severity, "warning");
    assert_eq!(tables.diagnostics[0].stage, "parse");
    assert_eq!(tables.diagnostics[0].message, "parse errors in /src/a.c");
    assert_eq!(tables.diagnostics[0].file, None);
    assert_eq!(tables.diagnostics[0].line, 0);
}

#[test]
fn functions_end_at_the_line_they_start_on() {
    let mut header = "\n".repeat(199);
    header.push_str("int late(int x);\n");
    let source = format!(
        "#include \"late.h\"\n{}int late(int x) {{\n    return x;\n}}\n",
        "\n".repeat(8)
    );
    let (program, pag, result) = build(
        &[("/src/late.c", source.as_str()), ("/src/late.h", header.as_str())],
        false,
    );
    let tables = tables_of(&program, &pag, &result, &ExportOptions::minimal("trace.db".to_string()));
    let rows: Vec<_> = tables.functions.iter().filter(|f| f.name == "late").collect();
    assert_eq!(rows.len(), 1);
    assert!(rows[0].is_defined);
    assert_eq!(rows[0].line_start, 10);
    assert_eq!(rows[0].line_end, 10);
    for row in &tables.functions {
        assert_eq!(row.line_end, row.line_start);
    }
}
