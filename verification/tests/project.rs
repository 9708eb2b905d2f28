//! Whole projects, from their files to their call graphs.

use trace::analysis::constraints::ResolutionKind;
use trace::analysis::models::FnModelSet;
use trace::analysis::pag::Pag;
use trace::analysis::solver::{analyze, analyze_with_options, direct_by_name, AnalysisResult, AnalyzeOptions};
use trace::index::project::build_program;
use trace::ir::ids::{CallSiteId, FileId, FnId, Span, VarId};
use trace::ir::program::Program;
use trace::ir::symbol::CallSite;
use trace::preproc::options::{PreprocessOptions, SourceTree};

fn project(files: &[(&str, &str)], opts: PreprocessOptions) -> Result<Program, String> {
    let mut tree = SourceTree::new();
    let mut listed = Vec::new();
    for (path, text) in files {
        tree.add_file(path, text);
        listed.push(path.to_string());
    }
    build_program("/src", &listed, opts.with_tree(tree))
}

fn build(files: &[(&str, &str)]) -> (Program, Pag, AnalysisResult) {
    let opts = PreprocessOptions::new()
        .with_include("/src")
        .with_include("/include");
    let program = project(files, opts).expect("build program");
    let (pag, analysis) = analyze(&program);
    (program, pag, analysis)
}

fn fn_name(program: &Program, id: FnId) -> String {
    program.symbols.function(id).name.clone()
}

fn has_edge(program: &Program, analysis: &AnalysisResult, from: &str, to: &str, how: ResolutionKind) -> bool {
    analysis.call_edges.iter().any(|e| {
        fn_name(program, e.caller) == from && fn_name(program, e.callee) == to && e.resolution == how
    })
}

fn has_bridge_edge(program: &Program, analysis: &AnalysisResult, caller: &str, callee: &str) -> bool {
    has_edge(program, analysis, caller, callee, ResolutionKind::IpcBridge)
}

const DIRECT_CALL: &[(&str, &str)] = &[
    (
        "/src/main.c",
        "#include \"helper.h\"\nint main(void) {\n    return helper(1);\n}\n",
    ),
    ("/src/helper.h", "#ifndef HELPER_H\n#define HELPER_H\nint helper(int x);\n#endif\n"),
    ("/src/helper.c", "#include \"helper.h\"\nint helper(int x) {\n    return x + 1;\n}\n"),
];

#[test]
fn direct_call_fixture() {
    let (program, _pag, analysis) = build(DIRECT_CALL);
    assert!(program.symbols.functions.iter().any(|f| f.name == "main"));
    assert!(program.symbols.functions.iter().any(|f| f.name == "helper"));
    assert!(!analysis.call_edges.is_empty());
    assert!(analysis
        .call_edges
        .iter()
        .any(|e| program.symbols.function(e.caller).name == "main"));
    assert!(has_edge(&program, &analysis, "main", "helper", ResolutionKind::Direct));
}

#[test]
fn builtin_macro_fallbacks_fixture() {
    let files: &[(&str, &str)] = &[
        (
            "/src/test.cpp",
            "class FooTest {};\nHWTEST_F(FooTest, Bar, TestSize.Level1)\n{\n    int x = 1;\n}\n",
        ),
        (
            "/src/dev.c",
            "static long DevRead(char __user *buf, unsigned long n)\n{\n    return n;\n}\n\
             static int __init DevInit(void)\n{\n    return 0;\n}\n\
             static void __exit DevExit(void)\n{\n}\n",
        ),
    ];
    let program = project(files, PreprocessOptions::new().with_include("/src")).expect("build program");
    let parse_diags: Vec<_> = program
        .diagnostics
        .iter()
        .filter(|d| d.stage == "parse")
        .collect();
    assert!(
        parse_diags.is_empty(),
        "expected no parse diagnostics, got: {parse_diags:?}"
    );
    for name in ["FooTest_Bar", "DevRead", "DevInit", "DevExit"] {
        assert!(
            program.symbols.functions.iter().any(|f| f.name == name),
            "function {name} missing from index"
        );
    }
}

const IPC_BASIC: &[(&str, &str)] = &[
    (
        "/src/foo_proxy.cpp",
        "class IFooProxy {\npublic:\n    int GetInfo(int id);\n    int SetInfo(int id);\n};\n\
         int IFooProxy::GetInfo(int id)\n{\n    return SendRequest(1, id);\n}\n\
         int IFooProxy::SetInfo(int id)\n{\n    return SendRequest(2, id);\n}\n",
    ),
    (
        "/src/foo_stub.cpp",
        "class IFooStub {\npublic:\n    int OnRemoteRequest(int code, int id);\n    int HandleGetInfo(int id);\n    int HandleSetInfo(int id);\n};\n\
         int IFooStub::OnRemoteRequest(int code, int id)\n{\n    switch (code) {\n    case 1: return HandleGetInfo(id);\n    case 2: return HandleSetInfo(id);\n    }\n    return 0;\n}\n\
         int IFooStub::HandleGetInfo(int id)\n{\n    return id;\n}\n\
         int IFooStub::HandleSetInfo(int id)\n{\n    return id;\n}\n",
    ),
];

#[test]
fn ipc_basic_bridges_proxy_to_stub() {
    let (program, pag, analysis) = build(IPC_BASIC);

    assert!(program.symbols.functions.iter().any(|f| f.name.contains("IFooProxy")));
    assert!(program.symbols.functions.iter().any(|f| f.name.contains("IFooStub")));

    assert!(
        has_bridge_edge(&program, &analysis, "IFooProxy::GetInfo", "IFooStub::HandleGetInfo"),
        "expected GetInfo → HandleGetInfo bridge edge, got: {:?}",
        analysis
            .call_edges
            .iter()
            .filter(|e| fn_name(&program, e.caller).contains("IFoo"))
            .map(|e| (fn_name(&program, e.caller), fn_name(&program, e.callee)))
            .collect::<Vec<_>>()
    );
    assert!(
        has_bridge_edge(&program, &analysis, "IFooProxy::SetInfo", "IFooStub::HandleSetInfo"),
        "expected SetInfo → HandleSetInfo bridge edge"
    );
    assert_eq!(pag.ipc_bridges.len(), 2);
}

#[test]
fn ipc_if_else_bridges_proxy_to_stub() {
    let (program, pag, analysis) = build(&[(
        "/src/thermal.cpp",
        "class IThermalProxy {\npublic:\n    void OnTemperatureChanged(int t);\n    void OnLevelChanged(int l);\n};\n\
         class IThermalStub {\npublic:\n    int OnRemoteRequest(int code, int v);\n    int OnTemperatureChanged(int t);\n    int OnLevelChanged(int l);\n};\n\
         void IThermalProxy::OnTemperatureChanged(int t)\n{\n    Send(1, t);\n}\n\
         void IThermalProxy::OnLevelChanged(int l)\n{\n    Send(2, l);\n}\n\
         int IThermalStub::OnRemoteRequest(int code, int v)\n{\n    if (code == 1) {\n        return OnTemperatureChanged(v);\n    } else if (code == 2) {\n        return OnLevelChanged(v);\n    }\n    return 0;\n}\n\
         int IThermalStub::OnTemperatureChanged(int t)\n{\n    return t;\n}\n\
         int IThermalStub::OnLevelChanged(int l)\n{\n    return l;\n}\n",
    )]);

    assert!(has_bridge_edge(&program, &analysis, "IThermalProxy::OnTemperatureChanged", "IThermalStub::OnTemperatureChanged"));
    assert!(has_bridge_edge(&program, &analysis, "IThermalProxy::OnLevelChanged", "IThermalStub::OnLevelChanged"));
    assert_eq!(pag.ipc_bridges.len(), 2);
}

#[test]
fn ipc_enum_bridges_proxy_to_stub() {
    let (program, pag, analysis) = build(&[(
        "/src/foo.cpp",
        "enum Code { ADD, QUERY, DESTROY };\n\
         class FooProxy {\npublic:\n    int Add(int a);\n    int Query(int a);\n    int Destroy(int a);\n};\n\
         class FooStub {\npublic:\n    int Add(int a);\n    int Query(int a);\n    int Destroy(int a);\n    int Add1(int a);\n};\n\
         int FooProxy::Add(int a) { return Send(ADD, a); }\n\
         int FooProxy::Query(int a) { return Send(QUERY, a); }\n\
         int FooProxy::Destroy(int a) { return Send(DESTROY, a); }\n\
         int FooStub::Add(int a) { return a; }\n\
         int FooStub::Query(int a) { return a; }\n\
         int FooStub::Destroy(int a) { return a; }\n\
         int FooStub::Add1(int a) { return a; }\n",
    )]);

    assert!(has_bridge_edge(&program, &analysis, "FooProxy::Add", "FooStub::Add"));
    assert!(has_bridge_edge(&program, &analysis, "FooProxy::Query", "FooStub::Query"));
    assert!(has_bridge_edge(&program, &analysis, "FooProxy::Destroy", "FooStub::Destroy"));
    assert!(
        !has_bridge_edge(&program, &analysis, "FooProxy::Add", "FooStub::Add1"),
        "no spurious edge"
    );
    assert_eq!(pag.ipc_bridges.len(), 3);
}

#[test]
fn ipc_callback_bridges_callback_proxy_to_stub() {
    let (program, pag, analysis) = build(&[(
        "/src/connection.cpp",
        "class ConnectionProxy {\npublic:\n    void OnConnect(int c);\n    void OnDisconnect(int c);\n};\n\
         class ConnectionStub {\npublic:\n    void OnConnect(int c);\n    void OnDisconnect(int c);\n};\n\
         void ConnectionProxy::OnConnect(int c) { Send(1, c); }\n\
         void ConnectionProxy::OnDisconnect(int c) { Send(2, c); }\n\
         void ConnectionStub::OnConnect(int c) { Notify(c); }\n\
         void ConnectionStub::OnDisconnect(int c) { Notify(c); }\n",
    )]);

    assert!(has_bridge_edge(&program, &analysis, "ConnectionProxy::OnConnect", "ConnectionStub::OnConnect"));
    assert!(has_bridge_edge(&program, &analysis, "ConnectionProxy::OnDisconnect", "ConnectionStub::OnDisconnect"));
    assert_eq!(pag.ipc_bridges.len(), 2);
}

#[test]
fn ipc_stub_suffix_handler_fallback() {
    let (program, pag, analysis) = build(&[(
        "/src/foo.cpp",
        "class FooProxy {\npublic:\n    void OnFoo(int c);\n    void OnBar(int c);\n};\n\
         class FooStub {\npublic:\n    void OnFooStub(int c);\n    void OnBarStub(int c);\n};\n\
         void FooProxy::OnFoo(int c) { Send(1, c); }\n\
         void FooProxy::OnBar(int c) { Send(2, c); }\n\
         void FooStub::OnFooStub(int c) { Notify(c); }\n\
         void FooStub::OnBarStub(int c) { Notify(c); }\n",
    )]);

    assert!(has_bridge_edge(&program, &analysis, "FooProxy::OnFoo", "FooStub::OnFooStub"));
    assert!(has_bridge_edge(&program, &analysis, "FooProxy::OnBar", "FooStub::OnBarStub"));
    assert_eq!(pag.ipc_bridges.len(), 2);
}

#[test]
fn no_ipc_bridges_without_proxy_stub_pair() {
    let (_program, pag, _analysis) = build(DIRECT_CALL);
    assert_eq!(pag.ipc_bridges.len(), 0);
}

#[test]
fn ipc_disabled_via_options() {
    let opts = PreprocessOptions::new()
        .with_include("/src")
        .with_include("/include");
    let program = project(IPC_BASIC, opts).expect("build program");

    let (_pag, analysis) = analyze_with_options(
        &program,
        AnalyzeOptions { enable_ipc: false, ..Default::default() },
    );
    let has_bridge = analysis.call_edges.iter().any(|e| {
        e.resolution == ResolutionKind::IpcBridge && fn_name(&program, e.caller) == "IFooProxy::GetInfo"
    });
    assert!(!has_bridge, "expected no bridge edges when IPC is disabled");
}

#[test]
fn direct_by_name_classifies_plain_identifiers() {
    let mk = |callee_name: &str, callee_var: Option<u32>, is_direct: bool| CallSite {
        id: CallSiteId(0),
        caller: FnId(0),
        callee_name: callee_name.into(),
        callee_var: callee_var.map(VarId),
        callee_fn_id: None,
        var_args: Vec::new(),
        fn_args: Vec::new(),
        addr_of_member_args: Vec::new(),
        span: Span {
            file: FileId(0),
            line: 1,
            col: 1,
        },
        is_direct,
        receiver_class: None,
        return_dst: None,
    };
    assert!(direct_by_name(&mk("OsalMemCalloc", None, false)));
    assert!(direct_by_name(&mk("f", None, true)));
    assert!(!direct_by_name(&mk("ops->Dispatch", None, false)));
    assert!(!direct_by_name(&mk("obj.fn", None, false)));
    assert!(!direct_by_name(&mk("fp", Some(3), false)));
}

#[test]
fn function_pointers_lead_to_what_they_hold() {
    let (program, _pag, analysis) = build(&[(
        "/src/ops.c",
        "struct ops { int (*open)(int); int (*close)(int); };\n\
         static int my_open(int x) { return x; }\n\
         static int my_close(int x) { return x; }\n\
         static struct ops table = { .open = my_open, .close = my_close };\n\
         int run(struct ops *o) { return o->open(1); }\n\
         int main(void) { return run(&table); }\n\
         int local(void) { int (*fp)(int) = my_close; return fp(2); }\n",
    )]);
    assert!(has_edge(&program, &analysis, "main", "run", ResolutionKind::Direct));
    assert!(has_edge(&program, &analysis, "run", "my_open", ResolutionKind::Indirect));
    assert!(!has_edge(&program, &analysis, "run", "my_close", ResolutionKind::Indirect));
    assert!(has_edge(&program, &analysis, "local", "my_close", ResolutionKind::Indirect));
    assert!(!analysis.partial);
}

#[test]
fn statics_of_one_name_stay_apart() {
    let (program, _pag, analysis) = build(&[
        ("/src/a.c", "static int twin(void) { return 1; }\nint call_a(void) { return twin(); }\n"),
        ("/src/b.c", "static int twin(void) { return 2; }\nint call_b(void) { return twin(); }\n"),
    ]);
    let target = |caller: &str| {
        analysis
            .call_edges
            .iter()
            .find(|e| fn_name(&program, e.caller) == caller)
            .map(|e| e.callee)
            .unwrap()
    };
    assert_ne!(target("call_a"), target("call_b"));
    assert!(program.symbols.function_ids_unique());
}

#[test]
fn callees_outside_the_project_are_external() {
    let (program, _pag, analysis) = build(&[(
        "/src/a.c",
        "int main(void) {\n    puts(\"x\");\n    abort();\n    puts(\"y\");\n    return 0;\n}\n",
    )]);
    assert!(has_edge(&program, &analysis, "main", "puts", ResolutionKind::External));
    assert!(has_edge(&program, &analysis, "main", "abort", ResolutionKind::External));
    let outside: Vec<(&str, u32)> = program
        .symbols
        .functions
        .iter()
        .filter(|f| !f.is_defined)
        .map(|f| (f.name.as_str(), f.span.line))
        .collect();
    assert_eq!(outside, vec![("abort", 3), ("puts", 2)]);
    assert!(program.symbols.resolve_function("puts").is_none());
}

#[test]
fn definitions_below_their_use_are_found() {
    let (program, _pag, analysis) = build(&[(
        "/src/late.c",
        "struct s { int (*cb)(int); };\n\
         struct s g;\n\
         void set(void) { g.cb = late; }\n\
         int use(void) { return g.cb(3); }\n\
         static int late(int x) { return x; }\n",
    )]);
    assert!(has_edge(&program, &analysis, "use", "late", ResolutionKind::Indirect));
}

#[test]
fn virtual_calls_reach_overrides() {
    let (program, _pag, analysis) = build(&[(
        "/src/shapes.cpp",
        "class Shape { public: virtual int area() { return 0; } virtual ~Shape() {} };\n\
         class Square : public Shape { public: int area() { return 4; } ~Square() {} };\n\
         namespace geo { class Other { public: int area() { return 9; } }; }\n\
         int measure(Shape *s) { return s->area(); }\n\
         void drop(Shape *s) { delete s; }\n\
         int main() { Square *q = new Square(); return measure(q); }\n",
    )]);
    assert!(has_edge(&program, &analysis, "measure", "Shape::area", ResolutionKind::Direct));
    assert!(has_edge(&program, &analysis, "measure", "Square::area", ResolutionKind::Direct));
    assert!(!has_edge(&program, &analysis, "measure", "geo::Other::area", ResolutionKind::Direct));
    assert!(has_edge(&program, &analysis, "drop", "Shape::~Shape", ResolutionKind::Direct));
    assert!(has_edge(&program, &analysis, "drop", "Square::~Square", ResolutionKind::Direct));
    assert_eq!(program.inheritance, vec![("Square".to_string(), "Shape".to_string())]);
}

#[test]
fn places_are_those_of_the_original_files() {
    let (program, _pag, _analysis) = build(&[
        ("/src/m.c", "#include \"m.h\"\n\nint main(void)\n{\n    return in_header();\n}\n"),
        ("/src/m.h", "\n\nstatic int in_header(void) { return 7; }\n"),
    ]);
    let f = program.symbols.functions.iter().find(|f| f.name == "in_header").unwrap();
    assert_eq!(f.span.line, 3);
    let path = &program.symbols.files[f.span.file.0 as usize].path;
    assert_eq!(path, "/src/m.h");
    let m = program.symbols.functions.iter().find(|f| f.name == "main").unwrap();
    assert_eq!((m.span.line, m.span.col), (3, 1));
    assert_eq!(program.include_deps, vec![("/src/m.c".to_string(), "/src/m.h".to_string())]);
}

#[test]
fn nothing_to_analyze_is_an_error() {
    let r = project(&[("/src/notes.txt", "hello")], PreprocessOptions::new());
    assert_eq!(r.err().unwrap(), "no C/C++ source files found under /src");
}

#[test]
fn syntax_errors_are_reported() {
    let program = project(&[("/src/bad.c", "int f( { ] ;\n")], PreprocessOptions::new()).unwrap();
    assert!(program
        .diagnostics
        .iter()
        .any(|d| d.stage == "parse" && d.message == "parse errors in /src/bad.c"));
}

#[test]
fn models_can_be_added() {
    let models = FnModelSet::builtin();
    assert!(models.get("memcpy").is_some());
    assert!(models.get("no_such_function").is_none());
}
