//! What the command line says, asks and shows.

use trace::analysis::constraints::{CallGraphEdge, ResolutionKind};
use trace::analysis::models::FnModelSet;
use trace::analysis::solver::analyze;
use trace::cli::configure::{
    configure, lies_under, outside_paths, outside_warning, parse_define, solve_budget,
};
use trace::cli::inspect::{
    callgraph_size, callgraph_title, check_depth, dataflow_size, dataflow_title, is_declared_at,
    label_of_flow_node, label_of_function, line_of_call, note_on_symbol, push_fn_name_filter,
    query_for_calls, signed, CallShown, Candidate, Direction, CALLS_ORDER, CALLS_SQL,
};
use trace::cli::pattern::like_escape;
use trace::cli::summary::{
    count_edges, count_external, note_on_analysis, note_on_index, note_on_models, summary,
};
use trace::cli::walk::walk;
use trace::index::project::build_program;
use trace::ir::ids::{CallSiteId, FnId};
use trace::preproc::options::{PreprocessOptions, SourceTree};

fn strings(items: &[&str]) -> Vec<String> {
    items.iter().map(|s| s.to_string()).collect()
}

#[test]
fn defines_split_at_the_first_equals_sign() {
    assert_eq!(parse_define("A"), ("A".to_string(), "1".to_string()));
    assert_eq!(parse_define("A=2"), ("A".to_string(), "2".to_string()));
    assert_eq!(parse_define("A="), ("A".to_string(), String::new()));
    assert_eq!(parse_define("A=b=c"), ("A".to_string(), "b=c".to_string()));
    assert_eq!(parse_define("=x"), (String::new(), "x".to_string()));
    assert_eq!(parse_define(""), (String::new(), "1".to_string()));
}

#[test]
fn options_keep_the_order_of_the_command_line() {
    let opts = configure(&strings(&["/a", "/b"]), &strings(&["X", "Y=2"]));
    assert_eq!(opts.include_paths, strings(&["/a", "/b"]));
    assert_eq!(
        opts.defines,
        vec![
            ("X".to_string(), "1".to_string()),
            ("Y".to_string(), "2".to_string())
        ]
    );
}

#[test]
fn paths_lie_under_whole_components() {
    assert!(lies_under("/src/a", "/src"));
    assert!(lies_under("/src", "/src"));
    assert!(lies_under("/src", "/"));
    assert!(!lies_under("/srcs/a", "/src"));
    assert!(!lies_under("/src", "/src/a"));
}

#[test]
fn directories_outside_the_tree_are_named() {
    let dirs = strings(&["/src/include", "/usr/include", "/", "/opt/sdk"]);
    let outside = outside_paths("/src", &dirs);
    assert_eq!(outside, strings(&["/usr/include", "/opt/sdk"]));
    assert_eq!(
        outside_warning("/src", &outside),
        strings(&[
            "warning: 2 include path(s) lie outside the analysis tree /src;",
            "         headers may resolve to twins in another tree and lose definitions:",
            "           /usr/include",
            "           /opt/sdk",
        ])
    );
    assert!(outside_warning("/src", &Vec::new()).is_empty());
    let many = strings(&["/1", "/2", "/3", "/4", "/5", "/6", "/7"]);
    let lines = outside_warning("/src", &many);
    assert_eq!(lines.len(), 8);
    assert_eq!(lines[6], "           /5");
    assert_eq!(lines[7], "           ... and 2 more");
}

#[test]
fn the_budget_can_be_set_from_outside() {
    assert_eq!(solve_budget(None, Some(800_000)), Some(800_000));
    assert_eq!(solve_budget(Some("12"), Some(800_000)), Some(12));
    assert_eq!(solve_budget(Some("0"), Some(800_000)), None);
    assert_eq!(solve_budget(Some(" 0 "), Some(800_000)), None);
    assert_eq!(solve_budget(Some("many"), Some(800_000)), Some(800_000));
    assert_eq!(solve_budget(Some(""), None), None);
    assert_eq!(solve_budget(Some("18446744073709551616"), Some(7)), Some(7));
    assert_eq!(solve_budget(Some("18446744073709551615"), Some(7)), Some(u64::MAX));
}

fn edge(resolution: ResolutionKind) -> CallGraphEdge {
    CallGraphEdge {
        call_site: CallSiteId(0),
        caller: FnId(0),
        callee: FnId(1),
        resolution,
    }
}

#[test]
fn ambiguous_calls_count_as_direct() {
    let edges = vec![
        edge(ResolutionKind::Direct),
        edge(ResolutionKind::Ambiguous),
        edge(ResolutionKind::Indirect),
        edge(ResolutionKind::External),
        edge(ResolutionKind::External),
        edge(ResolutionKind::IpcBridge),
    ];
    let counts = count_edges(&edges);
    assert_eq!(counts.direct, 2);
    assert_eq!(counts.indirect, 1);
    assert_eq!(counts.external, 2);
    assert_eq!(counts.ipc, 1);
    assert_eq!(
        counts.direct + counts.indirect + counts.external + counts.ipc,
        edges.len()
    );
}

#[test]
fn runs_are_summed_up() {
    let mut tree = SourceTree::new();
    tree.add_file(
        "/src/main.c",
        "int helper(int x) { return x; }\nint main(void) {\n    log_it(\"x\");\n    return helper(1);\n}\n",
    );
    let program = build_program(
        "/src",
        &strings(&["/src/main.c"]),
        PreprocessOptions::new().with_tree(tree),
    )
    .expect("build program");
    let (_pag, result) = analyze(&program);
    assert_eq!(count_external(&program.symbols), 1);
    assert_eq!(
        note_on_index(&program),
        format!("(1 files, 3 functions, {} flow)", program.flow.len())
    );
    assert_eq!(note_on_analysis(&result), "(2 edges, 0 indirect)");
    assert_eq!(
        summary(&program, &result, "out.db"),
        format!(
            "analysis complete: 3 functions (1 external), 2 call edges (1 direct, 0 indirect, 1 external, 0 ipc), {} arg-flow edges -> out.db",
            result.arg_flow_edges.len()
        )
    );
}

#[test]
fn models_are_announced() {
    assert_eq!(
        note_on_models(7, 0),
        "models: built-in (7 functions)"
    );
    assert_eq!(
        note_on_models(9, 2),
        "models: 9 functions (built-ins + 2 config file(s))"
    );
    assert!(FnModelSet::builtin().len() > 0);
}

#[test]
fn wildcards_are_escaped() {
    assert_eq!(like_escape("a_b%c!d"), "a!_b!%c!!d");
    assert_eq!(like_escape("plain"), "plain");
    assert_eq!(like_escape(""), "");
}

#[test]
fn names_match_whole_or_after_a_qualifier() {
    let mut sql = "SELECT 1".to_string();
    let mut params = strings(&["first"]);
    push_fn_name_filter(&mut sql, &mut params, "caller.name", "On_Event");
    assert_eq!(
        sql,
        "SELECT 1 AND (caller.name = ?2 OR caller.name LIKE ?3 ESCAPE '!')"
    );
    assert_eq!(params, strings(&["first", "On_Event", "%::On!_Event"]));
}

#[test]
fn queries_number_their_parameters() {
    let (sql, params) = query_for_calls(None, None, None);
    assert_eq!(sql, format!("{CALLS_SQL}{CALLS_ORDER}"));
    assert!(params.is_empty());
    let (sql, params) = query_for_calls(Some("a"), Some("b"), Some("x_y"));
    assert_eq!(
        sql,
        format!(
            "{CALLS_SQL} AND (caller.name = ?1 OR caller.name LIKE ?2 ESCAPE '!') AND (callee.name = ?3 OR callee.name LIKE ?4 ESCAPE '!') AND (csf.path LIKE ?5 ESCAPE '!' OR callee_f.path LIKE ?5 ESCAPE '!'){CALLS_ORDER}"
        )
    );
    assert_eq!(params, strings(&["a", "%::a", "b", "%::b", "%x!_y%"]));
}

#[test]
fn calls_without_a_site_show_no_place() {
    let mut call = CallShown {
        caller: "main".to_string(),
        site_path: Some("/src/main.c".to_string()),
        site_line: Some(3),
        callee: "helper".to_string(),
        callee_path: "/src/helper.c".to_string(),
        resolution: "direct".to_string(),
    };
    assert_eq!(
        line_of_call(&call),
        "main (main.c:3) -> helper [helper.c] (direct)"
    );
    call.site_line = None;
    assert_eq!(line_of_call(&call), "main -> helper [helper.c] (direct)");
    call.site_path = None;
    call.site_line = Some(3);
    call.callee_path = "plain.c".to_string();
    assert_eq!(line_of_call(&call), "main -> helper [plain.c] (direct)");
}

#[test]
fn numbers_keep_their_sign() {
    assert_eq!(signed(0), "0");
    assert_eq!(signed(42), "42");
    assert_eq!(signed(-42), "-42");
    assert_eq!(signed(i64::MIN), "-9223372036854775808");
    assert_eq!(signed(i64::MAX), "9223372036854775807");
}

#[test]
fn directions_have_their_words() {
    let down = Direction::parse("down").expect("down");
    let up = Direction::parse("up").expect("up");
    assert!(Direction::parse("sideways").is_none());
    assert!(Direction::parse("Down").is_none());
    assert_eq!(down.word_for_calls(), "callees");
    assert_eq!(up.word_for_calls(), "callers");
    assert_eq!(down.word_for_flow(), "flows-to");
    assert_eq!(up.word_for_flow(), "flows-from");
    assert_eq!(
        callgraph_title("main (main.c:1)", down, 3),
        "callgraph from main (main.c:1) (callees, depth 3):"
    );
    assert_eq!(
        dataflow_title("x", up, 2),
        "dataflow for x (flows-from, depth 2):"
    );
}

#[test]
fn graphs_need_some_depth() {
    assert_eq!(check_depth(0), Err("depth must be >= 1".to_string()));
    assert_eq!(check_depth(1), Ok(()));
    assert_eq!(callgraph_size(3, 2), "3 functions, 2 edges");
    assert_eq!(dataflow_size(1, 0), "1 flow nodes, 0 flow edges");
}

#[test]
fn nodes_show_what_is_known_of_them() {
    assert_eq!(label_of_function("main", "main.c:1"), "main (main.c:1)");
    assert_eq!(label_of_function("main", ""), "main (?)");
    assert_eq!(label_of_flow_node("x", "local @3"), "x (local @3)");
    assert_eq!(label_of_flow_node("x", ""), "x");
}

fn candidate(name: &str, line: i64, col: i64) -> Candidate {
    Candidate {
        name: name.to_string(),
        line,
        col,
    }
}

#[test]
fn symbols_cover_their_columns() {
    let c = candidate("abc", 4, 10);
    assert!(is_declared_at(&c, 4, 10));
    assert!(is_declared_at(&c, 4, 13));
    assert!(!is_declared_at(&c, 4, 14));
    assert!(!is_declared_at(&c, 4, 9));
    assert!(!is_declared_at(&c, 5, 10));
    assert!(is_declared_at(&candidate("x", 1, i64::MAX), 1, i64::MAX));
}

#[test]
fn notes_tell_of_other_candidates() {
    let best = candidate("abc", 4, 10);
    assert_eq!(
        note_on_symbol(&best, "abc @4:10", &Vec::new(), "f.c", 4, 11),
        None
    );
    assert_eq!(
        note_on_symbol(&best, "abc @4:10", &strings(&["d"]), "f.c", 4, 2),
        Some("note: no declaration exactly at f.c:4:2; using abc @4:10".to_string())
    );
    assert_eq!(
        note_on_symbol(&best, "abc @4:10", &strings(&["d", "d", "e"]), "f.c", 4, 10),
        Some("note: 4 candidates on this line; using abc (others: d, e)".to_string())
    );
    let many = strings(&["a", "b", "c", "d", "e", "f", "g"]);
    assert_eq!(
        note_on_symbol(&best, "abc @4:10", &many, "f.c", 4, 10),
        Some(
            "note: 8 candidates on this line; using abc (others: a, b, c, d, e … (+2 more))"
                .to_string()
        )
    );
}

#[test]
fn walks_go_as_far_as_they_may() {
    let edges = vec![(1, 2), (2, 3), (3, 4), (3, 1), (9, 1)];
    let (nodes, met) = walk(&edges, 1, Direction::Down, 1);
    assert_eq!(nodes, vec![1, 2]);
    assert_eq!(met, vec![(1, 2)]);
    let (nodes, met) = walk(&edges, 1, Direction::Down, 2);
    assert_eq!(nodes, vec![1, 2, 3]);
    assert_eq!(met, vec![(1, 2), (2, 3)]);
    let (nodes, met) = walk(&edges, 1, Direction::Down, 100);
    assert_eq!(nodes, vec![1, 2, 3, 4]);
    assert_eq!(met, vec![(1, 2), (2, 3), (3, 4), (3, 1)]);
    let (nodes, met) = walk(&edges, 1, Direction::Up, 1);
    assert_eq!(nodes, vec![1, 3, 9]);
    assert_eq!(met, vec![(3, 1), (9, 1)]);
    let (nodes, met) = walk(&Vec::new(), 5, Direction::Up, 4);
    assert_eq!(nodes, vec![5]);
    assert!(met.is_empty());
}
