//! What pointers may hold, and which functions calls may reach.

use trace::analysis::constraints::{ConstraintKind, ResolutionKind};
use trace::analysis::models::{Effect, FnModel, FnModelSet};
use trace::analysis::pag::Pag;
use trace::analysis::solver::{analyze, analyze_with_options, AnalysisResult, AnalyzeOptions};
use trace::index::project::build_program;
use trace::ir::flow::FlowConstraint;
use trace::ir::program::Program;
use trace::preproc::options::{PreprocessOptions, SourceTree};

fn program_of(text: &str) -> Program {
    let mut tree = SourceTree::new();
    tree.add_file("/src/a.c", text);
    build_program(
        "/src",
        &vec!["/src/a.c".to_string()],
        PreprocessOptions::new().with_tree(tree),
    )
    .expect("build program")
}

fn calls(program: &Program, result: &AnalysisResult, from: &str, how: ResolutionKind) -> Vec<String> {
    let mut names: Vec<String> = result
        .call_edges
        .iter()
        .filter(|e| program.symbols.function(e.caller).name == from && e.resolution == how)
        .map(|e| program.symbols.function(e.callee).name.clone())
        .collect();
    names.sort();
    names
}

fn indirect(text: &str, from: &str) -> Vec<String> {
    let program = program_of(text);
    let (_pag, result) = analyze(&program);
    assert!(!result.partial);
    calls(&program, &result, from, ResolutionKind::Indirect)
}

#[test]
fn copies_carry_functions() {
    assert_eq!(
        indirect(
            "int f(int x) { return x; }\n\
             int main(void) { int (*p)(int) = f; int (*q)(int); q = p; return q(1); }\n",
            "main"
        ),
        vec!["f"]
    );
}

#[test]
fn stores_and_loads_carry_functions() {
    assert_eq!(
        indirect(
            "struct ops { int (*run)(int); };\n\
             int f(int x) { return x; }\n\
             struct ops table = { .run = f };\n\
             int main(void) {\n    struct ops *p;\n    struct ops **pp;\n    struct ops *q;\n    pp = &p;\n    *pp = &table;\n    q = *pp;\n    return q->run(1);\n}\n",
            "main"
        ),
        vec!["f"]
    );
}

#[test]
fn fields_are_kept_apart() {
    let text = "struct ops { int (*a)(int); int (*b)(int); };\n\
         int fa(int x) { return x; }\n\
         int fb(int x) { return x; }\n\
         struct ops g;\n\
         void init(void) { g.a = fa; g.b = fb; }\n\
         int use_a(void) { return g.a(1); }\n\
         int use_b(struct ops *o) { return o->b(1); }\n\
         int main(void) { init(); return use_b(&g); }\n";
    assert_eq!(indirect(text, "use_a"), vec!["fa"]);
    assert_eq!(indirect(text, "use_b"), vec!["fb"]);
}

#[test]
fn arguments_reach_parameters() {
    let text = "int work(int x) { return x; }\n\
         int apply(int (*cb)(int), int n) { return cb(n); }\n\
         int main(void) { int (*p)(int) = work; return apply(p, 3); }\n\
         int other(void) { return apply(work, 4); }\n";
    let program = program_of(text);
    let (_pag, result) = analyze(&program);
    assert_eq!(
        calls(&program, &result, "apply", ResolutionKind::Indirect),
        vec!["work"]
    );
    for e in &result.arg_flow_edges {
        assert!(e.actual_var.is_some() != e.actual_fn.is_some());
    }
    let formal = |name: &str| {
        result
            .arg_flow_edges
            .iter()
            .any(|e| program.symbols.variable(e.formal).name == name)
    };
    assert!(formal("cb"));
    assert!(result.arg_flow_edges.iter().any(|e| e.actual_fn.is_some()));
    assert!(result.arg_flow_edges.iter().any(|e| e.actual_var.is_some()));
}

#[test]
fn returned_functions_are_called() {
    assert_eq!(
        indirect(
            "typedef int (*cb_t)(int);\n\
             int f(int x) { return x; }\n\
             cb_t pick(void) { return &f; }\n\
             int main(void) { cb_t p = pick(); return p(2); }\n",
            "main"
        ),
        vec!["f"]
    );
}

#[test]
fn names_can_be_looked_up() {
    let mut program = program_of(
        "int target(int x) { return x; }\n\
         int other(int x) { return x; }\n\
         int main(void *h) {\n    const char *name;\n    int (*found)(int);\n    dlsym(h, name);\n    return found(2);\n}\n",
    );
    let var = |program: &Program, name: &str| {
        program
            .symbols
            .variables
            .iter()
            .find(|v| v.name == name)
            .expect("variable")
            .id
    };
    let (name, found) = (var(&program, "name"), var(&program, "found"));
    program.flow.push(FlowConstraint::StringConst {
        dst: name,
        value: "target".to_string(),
    });
    let site = program
        .symbols
        .call_sites
        .iter_mut()
        .find(|c| c.callee_name == "dlsym")
        .expect("site");
    site.return_dst = Some(found);
    let (_pag, result) = analyze(&program);
    assert_eq!(
        calls(&program, &result, "main", ResolutionKind::Indirect),
        vec!["target"]
    );
}

#[test]
fn small_budgets_give_less() {
    let text = "int f(int x) { return x; }\n\
         int main(void) { int (*p)(int) = f; int (*q)(int) = p; int (*r)(int) = q; return r(1); }\n";
    let program = program_of(text);
    let run = |budget: Option<u64>| {
        let (_pag, result) = analyze_with_options(
            &program,
            AnalyzeOptions {
                solve_budget: budget,
                ..Default::default()
            },
        );
        result
    };
    let none = run(Some(0));
    let some = run(Some(3));
    let all = run(None);
    assert!(none.partial);
    assert!(!all.partial);
    assert!(none.call_edges.len() <= some.call_edges.len());
    assert!(some.call_edges.len() <= all.call_edges.len());
    for e in &none.call_edges {
        assert!(all.call_edges.contains(e));
    }
    assert_eq!(
        calls(&program, &all, "main", ResolutionKind::Indirect),
        vec!["f"]
    );
}

#[test]
fn retained_points_to_sets_are_reported() {
    let program = program_of("int f(int x) { return x; }\nint (*p)(int) = f;\n");
    let retained = |retain: bool| {
        let (_pag, result) = analyze_with_options(
            &program,
            AnalyzeOptions {
                retain_points_to: retain,
                ..Default::default()
            },
        );
        result.points_to.len()
    };
    assert_eq!(retained(false), 0);
    assert!(retained(true) > 0);
}

#[test]
fn models_of_one_name_replace_each_other() {
    let mut models = FnModelSet::builtin();
    let n = models.len();
    models.insert(FnModel {
        name: "free".to_string(),
        effects: vec![Effect::ReturnAlias { param: 0 }],
    });
    assert_eq!(models.len(), n);
    assert_eq!(models.get("free").expect("free").effects.len(), 1);
    assert!(matches!(
        models.get("free").expect("free").effects[0],
        Effect::ReturnAlias { param: 0 }
    ));
    models.insert(FnModel {
        name: "my_wipe".to_string(),
        effects: vec![Effect::Clears { param: 0 }],
    });
    assert_eq!(models.len(), n + 1);
    let program = program_of("int go(char *p) { my_wipe(p); return 0; }\n");
    let (_pag, result) = analyze_with_options(
        &program,
        AnalyzeOptions {
            models,
            ..Default::default()
        },
    );
    assert_eq!(result.terminator_events.len(), 1);
}

#[test]
fn nodes_hold_places_of_the_graph() {
    let program = program_of(
        "struct ops { int (*a)(int); };\n\
         int fa(int x) { return x; }\n\
         struct ops g;\n\
         int go(struct ops *o) { o->a = fa; return o->a(1); }\n\
         int main(void) { return go(&g); }\n",
    );
    let (pag, result) = analyze_with_options(
        &program,
        AnalyzeOptions {
            retain_points_to: true,
            ..Default::default()
        },
    );
    assert!(!result.points_to.is_empty());
    for (node, places) in &result.points_to {
        assert!((node.0 as usize) < pag.nodes.len());
        for place in places {
            assert!((place.0 as usize) < pag.locations.len());
        }
    }
    assert_eq!(
        calls(&program, &result, "go", ResolutionKind::Indirect),
        vec!["fa"]
    );
}

#[test]
fn edges_have_the_kind_of_their_callee() {
    let program = program_of(
        "int known(int x) { return x; }\n\
         int unknown(int x);\n\
         int main(void) { int (*p)(int) = known; return known(1) + unknown(2) + p(3); }\n",
    );
    let (_pag, result) = analyze(&program);
    assert_eq!(
        calls(&program, &result, "main", ResolutionKind::Direct),
        vec!["known"]
    );
    assert_eq!(
        calls(&program, &result, "main", ResolutionKind::External),
        vec!["unknown"]
    );
    assert_eq!(
        calls(&program, &result, "main", ResolutionKind::Indirect),
        vec!["known"]
    );
}

#[test]
fn flows_end_up_in_the_graph() {
    let program = program_of(
        "int f(int x) { return x; }\n\
         int (*table[1])(int) = { f };\n\
         int (*pick(void))(int) { return &f; }\n\
         int main(void) { int v; int *p = &v; int *q = p; const char *s = \"text\"; return *q; }\n",
    );
    let (pag, _result) = analyze(&program);
    assert_eq!(pag.fn_locations.len(), program.symbols.functions.len());
    for flow in &program.flow {
        let (kind, dst) = match flow {
            FlowConstraint::Copy { dst, .. } => (ConstraintKind::Copy, *dst),
            FlowConstraint::Load { dst, .. } => (ConstraintKind::Load, *dst),
            FlowConstraint::Store { dst, .. } => (ConstraintKind::Store, *dst),
            FlowConstraint::AddrOfFn { dst, .. } => (ConstraintKind::AddrOf, *dst),
            FlowConstraint::AddrOfVar { dst, .. } => (ConstraintKind::AddrOf, *dst),
            FlowConstraint::StringConst { dst, .. } => (ConstraintKind::AddrOf, *dst),
            FlowConstraint::ArrayFnMember { array, .. } => (ConstraintKind::AddrOf, *array),
            _ => continue,
        };
        let node = *pag.var_node.get(&dst.0).expect("node");
        assert!(pag
            .constraints
            .iter()
            .any(|c| c.kind == kind && c.dst.0 == node));
    }
}

#[test]
fn loads_let_data_out() {
    let program = program_of(
        "int x;\nint *p;\nint **pp;\nint *q;\n\
         void go(void) { pp = &p; *pp = &x; q = *pp; }\n",
    );
    let (pag, result) = analyze_with_options(
        &program,
        AnalyzeOptions {
            retain_points_to: true,
            ..Default::default()
        },
    );
    let var = |name: &str| {
        program
            .symbols
            .variables
            .iter()
            .find(|v| v.name == name)
            .expect("variable")
            .id
    };
    let node = pag.node_of_var(var("q")).expect("node");
    let place = pag.location_of_var(var("x")).expect("place");
    let (_, held) = result
        .points_to
        .iter()
        .find(|(n, _)| *n == node)
        .expect("points-to set");
    assert!(held.contains(&place));
}

#[test]
fn later_arguments_reach_later_parameters() {
    let text = "int work(int x) { return x; }\n\
         int apply(int n, int (*cb)(int)) { return cb(n); }\n\
         int other(int n, int (*cb)(int)) { return n; }\n\
         int main(void) { return apply(3, work) + other(work(1), work); }\n";
    assert_eq!(indirect(text, "apply"), vec!["work"]);
    let program = program_of(text);
    let (_pag, result) = analyze(&program);
    for e in result.arg_flow_edges.iter().filter(|e| e.actual_fn.is_some()) {
        assert_eq!(e.arg_index, 1);
        assert_eq!(program.symbols.variable(e.formal).name, "cb");
    }
}

#[test]
fn empty_graphs_hold_nothing() {
    let pag = Pag::default();
    assert!(pag.nodes.is_empty());
    assert_eq!(pag.location_count(), 0);
    assert_eq!(pag.constraint_count(), 0);
}

#[test]
fn copies_by_models_hand_on_what_is_known() {
    let text = "struct ops { int (*run)(int); };\n\
         int f(int x) { return x; }\n\
         struct ops from = { .run = f };\n\
         struct ops to;\n\
         typedef void *(*copier)(void *, void *, int);\n\
         void *memcpy(void *d, void *s, int n);\n\
         int go(copier c) { struct ops *d = &to; struct ops *s = &from; c(d, s, 8); return d->run(1); }\n\
         int main(void) { return go(memcpy); }\n";
    assert_eq!(indirect(text, "go"), vec!["f", "memcpy"]);
}

#[test]
fn bridges_leave_the_rest_alone() {
    let program = program_of(
        "int f(int *p) { return *p; }\nint x;\nint main(void) { return f(&x); }\n",
    );
    let result = |enable_ipc: bool| {
        analyze_with_options(
            &program,
            AnalyzeOptions {
                enable_ipc,
                retain_points_to: true,
                ..Default::default()
            },
        )
        .1
    };
    let (on, off) = (result(true), result(false));
    assert_eq!(on.arg_flow_edges, off.arg_flow_edges);
    assert_eq!(on.points_to, off.points_to);
    assert_eq!(on.call_edges[..off.call_edges.len()], off.call_edges[..]);
    assert!(on.call_edges[off.call_edges.len()..]
        .iter()
        .all(|e| e.resolution == ResolutionKind::IpcBridge));
}

#[test]
fn runs_without_a_budget_are_whole() {
    let text = "struct node { struct node *next; int (*run)(int); };\n\
         int f(int x) { return x; }\n\
         int main(void) {\n    struct node a;\n    struct node b;\n    struct node *p;\n    a.next = &b;\n    b.next = &a;\n    b.run = f;\n    p = &a;\n    while (p) p = p->next;\n    p = a.next;\n    return p->run(1);\n}\n";
    let program = program_of(text);
    for retain in [false, true] {
        let (_pag, result) = analyze_with_options(
            &program,
            AnalyzeOptions {
                solve_budget: None,
                retain_points_to: retain,
                ..Default::default()
            },
        );
        assert!(!result.partial);
    }
}
