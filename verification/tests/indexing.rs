//! From files to a program.

use trace::index::discover::{
    discover_c_files, discover_header_files, discover_source_files, is_cpp_path, SourceLang,
};
use trace::index::includes::{directories_of, find_names_drawn, IncludeGraph};
use trace::index::lower::unit::index_source_file;
use trace::index::merge::merge_unit_index;
use trace::index::names::{
    is_likely_macro_callee, is_plain_ident, normalize_qualified, strip_template_args,
};
use trace::index::parse::{has_parse_errors, parse_c_source, parse_source_with_lang};
use trace::index::project::{finalize_extern_callees, finish_build, index_sources, plan_build};
use trace::index::syntax::node_text;
use trace::ir::ids::{FileId, Span, TypeId};
use trace::ir::program::{base_name, MethodKind, Program};
use trace::ir::symbol::{Function, Linkage, StorageClass, SymbolTable, Variable};
use trace::paths::{directory, extension, file_name, join, tidy};
use trace::preproc::options::{PreprocessOptions, SourceTree};

fn strings(items: &[&str]) -> Vec<String> {
    items.iter().map(|s| s.to_string()).collect()
}

#[test]
fn sources_and_headers_are_told_apart() {
    let files = strings(&["/s/b.c", "/s/a.cpp", "/s/x.h", "/s/z.cc", "/s/y.cxx", "/s/n.txt", "/s/q.hpp"]);
    assert_eq!(
        discover_c_files(&files),
        strings(&["/s/a.cpp", "/s/b.c", "/s/y.cxx", "/s/z.cc"])
    );
    assert!(discover_header_files(&files).contains(&"/s/x.h".to_string()));
    assert!(!discover_header_files(&files).contains(&"/s/b.c".to_string()));
    let (c, h) = discover_source_files(&files);
    assert_eq!(c, discover_c_files(&files));
    assert_eq!(h, discover_header_files(&files));
}

#[test]
fn extensions_tell_the_language() {
    assert!(is_cpp_path("a.cpp"));
    assert!(is_cpp_path("a.cc"));
    assert!(is_cpp_path("a.cxx"));
    assert!(!is_cpp_path("a.c"));
    assert!(!is_cpp_path("cpp"));
    assert_eq!(SourceLang::from_path("a.c"), SourceLang::C);
    assert_eq!(SourceLang::from_path("a.cc"), SourceLang::Cpp);
}

#[test]
fn paths_come_apart_and_together() {
    assert_eq!(file_name("/a/b.c"), "b.c");
    assert_eq!(directory("/a/b.c"), "/a");
    assert_eq!(extension("/a/b.tar.gz").as_deref(), Some("gz"));
    assert_eq!(extension("/a/b"), None);
    assert_eq!(join("/a", "b.h"), "/a/b.h");
    assert_eq!(join("/a", "/b.h"), "/b.h");
}

#[test]
fn trees_come_from_the_grammar_of_the_language() {
    let c = parse_c_source("int main(void) { return 0; }\n").expect("tree");
    assert!(!has_parse_errors(&c));
    assert_eq!(c.tree.children.len(), 1);
    assert_eq!(node_text(&c.source, &c.tree.children[0]), "int main(void) { return 0; }");
    let cpp = "template <typename T> T id(T x) { return x; }\nint y = id<int>(1);\n";
    assert!(has_parse_errors(&parse_c_source(cpp).expect("tree")));
    assert!(!has_parse_errors(
        &parse_source_with_lang(cpp, SourceLang::Cpp).expect("tree")
    ));
}

#[test]
fn texts_of_nodes_count_bytes() {
    let text = "/* \u{e9}\u{4e2d} */ int x;\n";
    let parsed = parse_c_source(text).expect("tree");
    let last = parsed.tree.children.last().expect("declaration");
    assert_eq!(node_text(&parsed.source, last), "int x;");
}

#[test]
fn names_are_tidied() {
    assert_eq!(normalize_qualified("a :: b"), "a::b");
    assert_eq!(strip_template_args("Box<Pair<int, char>>"), "Box");
    assert_eq!(strip_template_args("Box<int>::get "), "Box<int>::get");
    assert!(is_plain_ident("a_1"));
    assert!(is_plain_ident("1a"));
    assert!(!is_plain_ident("a->b"));
    assert!(!is_plain_ident(""));
    assert!(is_likely_macro_callee("LOG_ERROR"));
    assert!(!is_likely_macro_callee("log_error"));
}

#[test]
fn names_of_headers_are_found_in_texts() {
    assert_eq!(
        find_names_drawn("#include \"a.h\"\n  #  include <sys/b.h>\nint x;\n// #include \"c.h\"\n"),
        strings(&["a.h", "sys/b.h"])
    );
    assert_eq!(directories_of(&strings(&["/a/x.h", "/a/y.h", "/b/z.h"])), strings(&["/a", "/b"]));
}

#[test]
fn headers_are_reached_through_headers() {
    let mut tree = SourceTree::new();
    tree.add_file("/s/m.c", "#include \"a.h\"\n");
    tree.add_file("/s/a.h", "#include \"b.h\"\n");
    tree.add_file("/s/b.h", "int b;\n");
    tree.add_file("/s/lone.h", "int l;\n");
    let graph = IncludeGraph::build(
        &tree,
        &strings(&["/s/m.c"]),
        &strings(&["/s/a.h", "/s/b.h", "/s/lone.h"]),
    );
    let mut reached = graph.reachable_from(&strings(&["/s/m.c"]));
    reached.sort();
    assert!(reached.contains(&"/s/a.h".to_string()));
    assert!(reached.contains(&"/s/b.h".to_string()));
    assert!(!reached.contains(&"/s/lone.h".to_string()));
}

fn plan_of(files: &[(&str, &str)]) -> trace::index::project::BuildPlan {
    let mut tree = SourceTree::new();
    let mut listed = Vec::new();
    for (path, text) in files {
        tree.add_file(path, text);
        listed.push(path.to_string());
    }
    plan_build("/s", &listed, PreprocessOptions::new().with_tree(tree)).expect("plan")
}

const TWO: &[(&str, &str)] = &[
    ("/s/a.c", "int shared(int x);\nint a(void) { return shared(1); }\n"),
    ("/s/b.c", "int shared(int x) { return x; }\nstatic int own(void) { return shared(2); }\n"),
];

#[test]
fn units_can_be_indexed_one_by_one() {
    let plan = plan_of(TWO);
    assert_eq!(plan.sources, strings(&["/s/a.c", "/s/b.c"]));
    let units: Vec<_> = plan
        .sources
        .iter()
        .map(|p| index_source_file(p, &plan.root, &plan.opts))
        .collect();
    let program = finish_build(plan, &units);
    let again = plan_of(TWO);
    let units = index_sources(&again);
    let other = finish_build(again, &units);
    let names = |p: &Program| -> Vec<String> {
        p.symbols.functions.iter().map(|f| f.name.clone()).collect()
    };
    assert_eq!(names(&program), names(&other));
    assert_eq!(program.symbols.call_sites.len(), other.symbols.call_sites.len());
}

#[test]
fn merging_keeps_what_is_there() {
    let plan = plan_of(TWO);
    let units = index_sources(&plan);
    let mut program = Program::new("/s".to_string());
    merge_unit_index(&mut program, &units[0]);
    let before: Vec<(u32, String)> = program
        .symbols
        .functions
        .iter()
        .map(|f| (f.id.0, f.name.clone()))
        .collect();
    assert!(!program
        .symbols
        .functions
        .iter()
        .any(|f| f.name == "shared" && f.is_defined));
    merge_unit_index(&mut program, &units[1]);
    for (i, (id, name)) in before.iter().enumerate() {
        assert_eq!(program.symbols.functions[i].id.0, *id);
        assert_eq!(&program.symbols.functions[i].name, name);
    }
    let shared: Vec<_> = program
        .symbols
        .functions
        .iter()
        .filter(|f| f.name == "shared")
        .collect();
    assert_eq!(shared.len(), 1);
    assert!(shared[0].is_defined);
    assert!(program.symbols.function_ids_unique());
    for (i, v) in program.symbols.variables.iter().enumerate() {
        assert_eq!(v.id.0 as usize, i);
    }
    for (i, c) in program.symbols.call_sites.iter().enumerate() {
        assert_eq!(c.id.0 as usize, i);
    }
    let n = program.symbols.functions.len();
    merge_unit_index(&mut program, &units[1]);
    assert_eq!(program.symbols.functions.len(), n);
}

#[test]
fn stand_ins_change_no_name() {
    let plan = plan_of(&[("/s/a.c", "int a(void) { return gone(1) + gone(2); }\n")]);
    let units = index_sources(&plan);
    let mut program = Program::new("/s".to_string());
    merge_unit_index(&mut program, &units[0]);
    assert!(program.symbols.call_sites.iter().all(|c| !c.is_direct));
    finalize_extern_callees(&mut program);
    assert!(program.symbols.call_sites.iter().all(|c| c.is_direct));
    let gone: Vec<_> = program
        .symbols
        .functions
        .iter()
        .filter(|f| f.name == "gone")
        .collect();
    assert_eq!(gone.len(), 1);
    assert!(!gone[0].is_defined);
    assert_eq!(gone[0].linkage, Linkage::External);
    assert!(program.symbols.resolve_function("gone").is_none());
    assert!(program.symbols.resolve_function_candidates("gone", None).is_empty());
    let n = program.symbols.functions.len();
    finalize_extern_callees(&mut program);
    assert_eq!(program.symbols.functions.len(), n);
}

#[test]
fn files_that_cannot_be_read_are_reported() {
    let unit = index_source_file("/s/none.c", "/s", &PreprocessOptions::new());
    assert_eq!(unit.path, "/s/none.c");
    assert_eq!(unit.diagnostics.len(), 1);
    assert_eq!(unit.diagnostics[0].stage, "parse");
    assert!(unit.functions.is_empty());
}

#[test]
fn classes_know_what_derives_from_them() {
    let mut program = Program::new("/s".to_string());
    program.add_inheritance("B", "A");
    program.add_inheritance("C", "B");
    program.add_inheritance("C", "B");
    program.add_inheritance("X", "Y");
    assert_eq!(program.inheritance.len(), 3);
    assert_eq!(program.bases_of("C"), strings(&["B"]));
    let mut below = program.subclass_closure("A");
    below.sort();
    assert!(below.contains(&"B".to_string()) && below.contains(&"C".to_string()));
    assert!(!below.contains(&"X".to_string()));
    assert_eq!(base_name("ns::A"), "A");
    assert!(MethodKind::Dtor.is_destructor());
    assert_eq!(MethodKind::Dtor.name_on("ns::A"), "ns::A::~A");
    assert_eq!(MethodKind::Named("f".to_string()).name_on("ns::A"), "ns::A::f");
}

#[test]
fn symbols_refer_to_what_is_there() {
    let mut tree = SourceTree::new();
    tree.add_file(
        "/p/a.c",
        "#include \"b.h\"\nstatic int twice(int x) { return x + x; }\n\
         int main(void) { int (*f)(int) = twice; return helper(f(1)) + missing(2); }\n",
    );
    tree.add_file("/p/b.c", "#include \"b.h\"\nint helper(int x) { int y = x; return y; }\n");
    tree.add_file("/p/b.h", "int helper(int x);\n");
    let plan = plan_build(
        "/p",
        &strings(&["/p/a.c", "/p/b.c", "/p/b.h"]),
        PreprocessOptions::new().with_tree(tree),
    )
    .expect("plan");
    let units = index_sources(&plan);
    let program = finish_build(plan, &units);
    let symbols = &program.symbols;
    let known = |f: u32| symbols.functions.iter().any(|g| g.id.0 == f);
    let filed = |f: u32| symbols.files[f as usize].id.0 == f;
    assert_eq!(symbols.call_sites.len(), 3);
    for site in &symbols.call_sites {
        assert!(known(site.caller.0));
        assert!(site.callee_fn_id.map_or(true, |f| known(f.0)));
        assert!(site.fn_args.iter().all(|(_, f)| known(f.0)));
        assert!(filed(site.span.file.0));
    }
    for var in &symbols.variables {
        assert!(var.fn_id.map_or(true, |f| known(f.0)));
        assert!(filed(var.span.file.0));
    }
    for f in &symbols.functions {
        assert!(filed(f.file.0));
    }
    assert!(symbols.functions.iter().any(|f| f.name == "missing" && !f.is_defined));
}

#[test]
fn arguments_keep_their_positions() {
    let plan = plan_of(&[(
        "/s/a.c",
        "void f(int *a, int *b);\nvoid h(int x);\nvoid g(void) { int *x; f(0, x); f(x, 0); f(1 + 2, g); }\n",
    )]);
    let units = index_sources(&plan);
    let sites = &units[0].call_sites;
    assert_eq!(sites.len(), 3);
    let positions = |k: usize| -> Vec<u32> { sites[k].var_args.iter().map(|a| a.0).collect() };
    assert_eq!(positions(0), vec![1]);
    assert_eq!(positions(1), vec![0]);
    assert!(positions(2).is_empty());
    let functions: Vec<u32> = sites[2].fn_args.iter().map(|a| a.0).collect();
    assert_eq!(functions, vec![1]);
}

#[test]
fn overloads_are_told_apart_by_all_arguments() {
    let plan = plan_of(&[(
        "/s/a.cpp",
        "void f(int a) {}\nvoid f(int a, int b) {}\nvoid g() { f(1); f(1, 2); }\n",
    )]);
    let units = index_sources(&plan);
    let program = finish_build(plan, &units);
    let arities: Vec<usize> = program
        .symbols
        .call_sites
        .iter()
        .map(|c| program.symbols.function(c.callee_fn_id.expect("callee")).params.len())
        .collect();
    assert_eq!(arities, vec![1, 2]);
}

fn declaration(symbols: &mut SymbolTable, params: usize, is_defined: bool) -> Function {
    let span = Span { file: FileId(0), line: 1, col: 1 };
    let mut ids = Vec::new();
    for i in 0..params {
        let id = symbols.alloc_var_id();
        symbols.add_variable(Variable {
            id,
            name: format!("p{i}"),
            type_id: TypeId(3),
            storage: StorageClass::Param,
            fn_id: None,
            param_index: Some(i as u32),
            span,
            is_pointer: false,
        });
        ids.push(id);
    }
    Function {
        id: symbols.alloc_fn_id(),
        name: "n".to_string(),
        linkage: Linkage::External,
        return_type: TypeId(0),
        params: ids,
        locals: Vec::new(),
        span,
        file: FileId(0),
        is_defined,
        is_virtual: false,
        is_cpp: true,
    }
}

#[test]
fn definitions_find_their_prototypes() {
    let mut symbols = SymbolTable::new();
    let one = declaration(&mut symbols, 1, false);
    let a = symbols.add_function(one);
    let two = declaration(&mut symbols, 2, false);
    let b = symbols.add_function(two);
    assert_ne!(a, b);
    let body = declaration(&mut symbols, 1, true);
    assert_eq!(symbols.add_function(body), a);
    assert_eq!(symbols.functions.len(), 2);
    assert!(symbols.function(a).is_defined);
    assert!(!symbols.function(b).is_defined);
    assert_eq!(symbols.functions_named("n"), vec![a, b]);
    assert_eq!(symbols.resolve_function("n"), Some(b));
}

#[test]
fn first_copies_stay_as_they_are() {
    let header = "static int twice(int x) { int y = x; return y; }\n";
    let plan = plan_of(&[
        ("/s/a.c", "#include \"t.h\"\nint a(void) { return twice(1); }\n"),
        ("/s/b.c", "#include \"t.h\"\nint p(int u, int v) { return u; }\nint b(void) { return twice(2); }\n"),
        ("/s/t.h", header),
    ]);
    let units = index_sources(&plan);
    let mut program = Program::new("/s".to_string());
    merge_unit_index(&mut program, &units[0]);
    let copy = |p: &Program| {
        let f = p.symbols.functions.iter().find(|f| f.name == "twice").expect("twice");
        (f.id, f.params.clone(), f.locals.clone(), f.span, f.is_defined)
    };
    let first = copy(&program);
    assert_eq!(first.1.len(), 1);
    let sites = program.symbols.call_sites.len();
    merge_unit_index(&mut program, &units[1]);
    assert_eq!(copy(&program), first);
    assert_eq!(program.symbols.call_sites.len(), sites + 1);
    let last = program.symbols.call_sites.last().expect("call");
    assert_eq!(last.callee_name, "twice");
    assert!(last.callee_fn_id.map_or(true, |f| f == first.0));
    let counts = |p: &Program| {
        (
            p.symbols.functions.len(),
            p.symbols.call_sites.len(),
            p.symbols.files.len(),
            p.inheritance.len(),
            p.anon_type_counter,
        )
    };
    let before = counts(&program);
    merge_unit_index(&mut program, &units[1]);
    assert_eq!(counts(&program), before);
    assert_eq!(copy(&program), first);
}

#[test]
fn parameters_come_with_their_definition() {
    let plan = plan_of(&[
        ("/s/a.c", "int later(int x);\nint a(void) { return later(1); }\n"),
        ("/s/b.c", "int other(int k) { return k; }\nint later(int y) { return y; }\n"),
    ]);
    let units = index_sources(&plan);
    let program = finish_build(plan, &units);
    let name = |f: &str| {
        let g = program.symbols.functions.iter().find(|g| g.name == f).expect("function");
        let v = program.symbols.variable(g.params[0]);
        (v.name.clone(), v.fn_id == Some(g.id))
    };
    assert_eq!(name("later"), ("y".to_string(), true));
    assert_eq!(name("other"), ("k".to_string(), true));
}

#[test]
fn repeated_definitions_count_once() {
    let mut tree = SourceTree::new();
    tree.add_file("/s/a.c", "int a;\n");
    let opts = PreprocessOptions::new()
        .with_tree(tree)
        .with_define("A", "1")
        .with_define("B", "2")
        .with_define("A", "3");
    let plan = plan_build("/s", &strings(&["/s/a.c"]), opts).expect("plan");
    assert_eq!(
        plan.program.defines,
        vec![
            ("A".to_string(), "3".to_string()),
            ("B".to_string(), "2".to_string())
        ]
    );
}

#[test]
fn slashes_and_dots_at_the_end_are_no_names() {
    assert_eq!(extension("dir/a.cpp/").as_deref(), Some("cpp"));
    assert!(is_cpp_path("dir/a.cpp/"));
    assert!(is_cpp_path("dir/a.cpp/."));
    assert_eq!(file_name("dir/a.cpp//"), "a.cpp");
    assert_eq!(file_name("dir/./"), "dir");
    assert_eq!(file_name("dir/.."), "");
    assert_eq!(file_name("/"), "");
    assert_eq!(extension("dir/.."), None);
    assert_eq!(extension("dir/.hidden"), None);
    assert_eq!(directory("a//b.c"), "a");
    assert_eq!(directory("/b.c"), "/");
    assert_eq!(tidy("a//b/./c/"), "a/b/c");
    assert_eq!(tidy("//a"), "/a");
    assert_eq!(tidy("./a"), "./a");
    assert_eq!(tidy("a/../b"), "a/../b");
}

#[test]
fn paths_with_the_same_parts_are_one_file() {
    let mut symbols = SymbolTable::new();
    let a = symbols.add_file_interned("/s/a//b.h");
    assert_eq!(symbols.add_file_interned("/s/a/b.h"), a);
    assert_eq!(symbols.add_file_interned("/s/./a/b.h/"), a);
    assert_eq!(symbols.file_by_path("/s/a/./b.h"), Some(a));
    assert_eq!(symbols.file_by_path("/s/b.h"), None);
    assert_ne!(symbols.add_file_interned("/s/a/../b.h"), a);
    assert_eq!(symbols.files.len(), 2);
    assert_eq!(symbols.files[0].path, "/s/a//b.h");
}

fn named(symbols: &mut SymbolTable, linkage: Linkage, file: FileId) -> Function {
    let span = Span { file, line: 1, col: 1 };
    Function {
        id: symbols.alloc_fn_id(),
        name: "n".to_string(),
        linkage,
        return_type: TypeId(0),
        params: Vec::new(),
        locals: Vec::new(),
        span,
        file,
        is_defined: true,
        is_virtual: false,
        is_cpp: false,
    }
}

#[test]
fn meanings_come_before_other_candidates() {
    let mut symbols = SymbolTable::new();
    let file = symbols.add_file_interned("/s/a.c");
    let header = symbols.add_file_interned("/s/a.h");
    let other = symbols.add_file_interned("/s/b.c");
    symbols.register_included_header(file, header);
    let f = named(&mut symbols, Linkage::External, other);
    let external = symbols.add_function(f);
    let f = named(&mut symbols, Linkage::Internal, header);
    let in_header = symbols.add_function(f);
    let f = named(&mut symbols, Linkage::Internal, other);
    let elsewhere = symbols.add_function(f);
    assert_eq!(symbols.resolve_function_in_scope("n", Some(file)), Some(in_header));
    assert_eq!(symbols.resolve_function_candidates("n", Some(file)), vec![in_header, external]);
    let f = named(&mut symbols, Linkage::Internal, file);
    let own = symbols.add_function(f);
    assert_eq!(symbols.resolve_function_in_scope("n", Some(file)), Some(own));
    assert_eq!(
        symbols.resolve_function_candidates("n", Some(file)),
        vec![own, in_header, external]
    );
    assert_eq!(symbols.resolve_function_candidates("n", Some(other)), vec![elsewhere, external]);
    assert_eq!(symbols.resolve_function_candidates("n", None), vec![external]);
    assert_eq!(symbols.functions_named("n"), vec![external]);
    assert!(symbols.resolve_function_candidates("m", Some(file)).is_empty());
    assert_eq!(symbols.resolve_function_in_scope("m", Some(file)), None);
}

#[test]
fn merged_programs_hold_the_variables_of_flows() {
    let plan = plan_of(&[
        ("/s/a.c", "int f(int x) { return x; }\nint a(void) { int (*p)(int) = f; return p(1); }\n"),
        ("/s/b.c", "int g(int x) { int y = x; int *q = &y; return *q; }\nint b(void) { return g(2); }\n"),
    ]);
    let units = index_sources(&plan);
    let mut program = Program::new("/s".to_string());
    for unit in units.iter().chain(units.iter()) {
        merge_unit_index(&mut program, unit);
    }
    assert!(!program.flow.is_empty());
    let copies = program.flow.iter().filter_map(|f| match f {
        trace::ir::flow::FlowConstraint::Copy { dst, src } => Some((*dst, *src)),
        _ => None,
    });
    for (dst, src) in copies {
        assert!(program.symbols.variable_by_id(dst).is_some());
        assert!(program.symbols.variable_by_id(src).is_some());
    }
    assert!(program.symbols.function_ids_unique());
    let mut places: Vec<(u32, u32, u32, String)> = program
        .symbols
        .call_sites
        .iter()
        .map(|c| (c.span.file.0, c.span.line, c.span.col, c.callee_name.clone()))
        .collect();
    let n = places.len();
    places.sort();
    places.dedup();
    assert_eq!(places.len(), n);
}
