//! The preprocessor on source trees, with headers, caches and shared tables.

use trace::preproc::lexer::Lexer;
use trace::preproc::macros::{MacroDef, MacroTable};
use trace::preproc::options::{ExpansionCache, PreprocessOptions, SourceTree};
use trace::preproc::run::{preprocess_file, preprocess_string, PreprocessResult};
use trace::preproc::substitute::apply_concatenation;
use trace::preproc::token::{Token, TokenKind};

fn tree(files: &[(&str, &str)]) -> SourceTree {
    let mut t = SourceTree::new();
    for (path, content) in files {
        t.add_file(path, content);
    }
    t
}

fn run_fixture(path: &str, content: &str, opts: PreprocessOptions) -> PreprocessResult {
    preprocess_file(path, &opts.with_tree(tree(&[(path, content)]))).unwrap()
}

/// The cache after a run.
fn cached(runs: Vec<PreprocessResult>) -> ExpansionCache {
    let mut cache = ExpansionCache::new();
    for r in runs {
        cache.absorb(r.new_expansions);
    }
    cache
}

#[test]
fn handles_ifdef_file() {
    let src = "#ifdef FEATURE\nint enabled = 1;\n#else\nint enabled = 0;\n#endif\n";
    let opts = PreprocessOptions::new().with_define("FEATURE", "1");
    let result = run_fixture("ifdef.c", src, opts);
    assert!(
        result.output.contains("enabled") && result.output.contains("1"),
        "output was: {}",
        result.output
    );
}

#[test]
fn if_else_selects_active_branch_only() {
    let src = "#define FEATURE 1\n#if FEATURE\nint active;\n#else\nint dead;\n#endif\n\
               #if !FEATURE\nint also_dead;\n#else\nint also_active;\n#endif\n";
    let result = run_fixture("if_else.c", src, PreprocessOptions::new());
    assert!(
        result.output.contains("active"),
        "expected #if FEATURE branch, got: {}",
        result.output
    );
    assert!(
        !result.output.contains("dead"),
        "dead branch must not appear: {}",
        result.output
    );
    assert!(
        !result.output.contains("also_dead"),
        "inverse branch must not appear: {}",
        result.output
    );
    assert!(
        result.output.contains("also_active"),
        "expected #else after !FEATURE, got: {}",
        result.output
    );
}

#[test]
fn nested_if_respects_inner_else() {
    let src = "#define OUTER 1\n#define INNER 0\n#if OUTER\nint outer_on;\n#if INNER\n\
               int inner_on;\n#else\nint inner_off;\n#endif\n#else\nint outer_off;\n#endif\n";
    let result = run_fixture("nested_if.c", src, PreprocessOptions::new());
    assert!(result.output.contains("outer_on"), "{}", result.output);
    assert!(!result.output.contains("inner_on"), "{}", result.output);
    assert!(result.output.contains("inner_off"), "{}", result.output);
    assert!(!result.output.contains("outer_off"), "{}", result.output);
}

#[test]
fn ifndef_and_else_inverse() {
    let src = "#ifndef GUARD\nint guarded;\n#else\nint unguarded;\n#endif\n\
               #define GUARD\n#ifndef GUARD\nint missing;\n#else\nint present;\n#endif\n";
    let result = run_fixture("ifndef_else.c", src, PreprocessOptions::new());
    assert!(result.output.contains("guarded"), "{}", result.output);
    assert!(!result.output.contains("unguarded"), "{}", result.output);
    assert!(result.output.contains("present"), "{}", result.output);
    assert!(!result.output.contains("missing"), "{}", result.output);
}

#[test]
fn unused_macro_applies_with_shared_table() {
    let opts = PreprocessOptions::new().with_shared_macros(MacroTable::new());
    let src = "void f(int &x __UNUSED) {}\n";
    let result = preprocess_string(src, "t.cpp", &opts);
    assert!(
        !result.output.contains("__UNUSED"),
        "builtins must apply on top of the shared table: {}",
        result.output
    );
}

#[test]
fn cli_define_overrides_builtin_with_shared_table() {
    let opts = PreprocessOptions::new()
        .with_shared_macros(MacroTable::new())
        .with_define("__init", "KEEP_ME");
    let result = preprocess_string("int __init x;\n", "t.c", &opts);
    assert!(
        result.output.contains("KEEP_ME"),
        "a -D define must override the builtin even in the shared-table path: {}",
        result.output
    );
}

#[test]
fn cached_include_delta_carries_guarded_redefinition() {
    let files = [(
        "/d/c.h",
        "#ifndef container_of\n#define container_of(p, t, m) REAL_CONTAINER(p)\n#endif\n",
    )];
    let src = "#include \"c.h\"\nint a = container_of(x, struct D, f);\n";
    let opts = PreprocessOptions::new()
        .with_include("/d")
        .with_tree(tree(&files))
        .with_include_expansion_cache(ExpansionCache::new());
    let r1 = preprocess_string(src, "/d/a.c", &opts);
    assert!(
        r1.output.contains("REAL_CONTAINER"),
        "first TU must use the header's definition: {}",
        r1.output
    );
    // Second TU replays the cached include; the header's redefinition
    // must survive the delta capture and beat this TU's fallback.
    let opts = opts.with_include_expansion_cache(cached(vec![r1]));
    let r2 = preprocess_string(src, "/d/b.c", &opts);
    assert!(
        r2.output.contains("REAL_CONTAINER"),
        "cache replay must carry the header's redefinition over the fallback: {}",
        r2.output
    );
}

#[test]
fn cached_header_replays_undef_of_fallback() {
    // The declaration makes the header content-bearing so a cache entry
    // is actually stored and the second TU takes the replay path.
    let files = [("/d/u.h", "int u_decl;\n#undef __init\n")];
    let opts = PreprocessOptions::new()
        .with_include("/d")
        .with_tree(tree(&files))
        .with_include_expansion_cache(ExpansionCache::new());
    let src = "#include \"u.h\"\nint __init marker;\n";
    let r1 = preprocess_string(src, "/d/a.c", &opts);
    assert!(
        r1.output.contains("__init"),
        "after the header's #undef the name must stay an identifier: {}",
        r1.output
    );
    // Cache hit must replay the #undef, not leave the fallback installed.
    let opts = opts.with_include_expansion_cache(cached(vec![r1]));
    let r2 = preprocess_string(src, "/d/b.c", &opts);
    assert!(
        r2.output.contains("__init"),
        "cache replay must apply the header's #undef of the fallback: {}",
        r2.output
    );
}

#[test]
fn cached_header_replays_noop_undef() {
    // X is undefined when the entry is created, so a state diff records
    // nothing: only a log of executed directives catches this #undef.
    let files = [("/d/u.h", "int u_decl;\n#undef X\n")];
    let opts = PreprocessOptions::new()
        .with_include("/d")
        .with_tree(tree(&files))
        .with_include_expansion_cache(ExpansionCache::new());
    let warm = preprocess_string("#include \"u.h\"\n", "/d/a.c", &opts);
    assert!(warm.output.contains("u_decl"), "{}", warm.output);
    let src = "#define X 7\n#include \"u.h\"\nint arr = X;\n";
    let opts = opts.with_include_expansion_cache(cached(vec![warm]));
    let hit = preprocess_string(src, "/d/b.c", &opts);
    assert!(
        hit.output.contains('X') && !hit.output.contains('7'),
        "cache replay must apply the header's #undef even though X was \
         absent when the entry was created: {}",
        hit.output
    );
}

#[test]
fn cached_header_replays_undef_then_redefine_of_existing_macro() {
    let files = [("/d/r.h", "int r_decl;\n#undef X\n#define X 9\n")];
    let opts = PreprocessOptions::new()
        .with_include("/d")
        .with_tree(tree(&files))
        .with_include_expansion_cache(ExpansionCache::new());
    let src = "#define X 1\n#include \"r.h\"\nint a = X;\n";
    let miss = preprocess_string(src, "/d/a.c", &opts);
    assert!(
        miss.output.contains('9') && !miss.output.contains('1'),
        "{}",
        miss.output
    );
    // X existed at header entry AND exit, so a state diff records
    // neither the undef nor the redefinition.
    let opts = opts.with_include_expansion_cache(cached(vec![miss]));
    let hit = preprocess_string(src, "/d/b.c", &opts);
    assert!(
        hit.output.contains('9') && !hit.output.contains('1'),
        "cache replay must reproduce undef-then-redefine of a macro that \
         existed when the entry was created: {}",
        hit.output
    );
}

#[test]
fn cached_header_define_overwrites_like_live_execution() {
    let files = [("/d/r.h", "int r_decl;\n#define X 9\n")];
    let opts = PreprocessOptions::new()
        .with_include("/d")
        .with_tree(tree(&files))
        .with_include_expansion_cache(ExpansionCache::new());
    let src = "#define X 1\n#include \"r.h\"\nint a = X;\n";
    let miss = preprocess_string(src, "/d/a.c", &opts);
    assert!(
        miss.output.contains('9') && !miss.output.contains('1'),
        "{}",
        miss.output
    );
    let opts = opts.with_include_expansion_cache(cached(vec![miss]));
    let hit = preprocess_string(src, "/d/b.c", &opts);
    assert!(
        hit.output.contains('9') && !hit.output.contains('1'),
        "a replayed #define must overwrite like live execution: {}",
        hit.output
    );
}

#[test]
fn cached_replay_accumulates_to_shared_table() {
    let files = [("/d/m.h", "int m_decl;\n#define FROM_HDR 5\n")];
    let src = "#include \"m.h\"\n";
    let opts1 = PreprocessOptions::new()
        .with_include("/d")
        .with_tree(tree(&files))
        .with_include_expansion_cache(ExpansionCache::new())
        .with_shared_macros(MacroTable::new())
        .with_accumulate_macros(true);
    let r1 = preprocess_string(src, "/d/a.c", &opts1);
    // The second run hits the cache; the replayed #define must reach the
    // shared table exactly as a live #define would.
    let opts2 = PreprocessOptions::new()
        .with_include("/d")
        .with_tree(tree(&files))
        .with_include_expansion_cache(cached(vec![r1]))
        .with_shared_macros(MacroTable::new())
        .with_accumulate_macros(true);
    let r2 = preprocess_string(src, "/d/b.c", &opts2);
    let mut shared2 = MacroTable::new();
    shared2.apply(&r2.macro_updates);
    assert!(
        shared2.contains_key("FROM_HDR"),
        "cache replay must accumulate macros into the shared table"
    );
}

#[test]
fn self_ref_macro_fixture() {
    let src = "#define PRIVATE_MESSAGE_TYPE \\\n    PRIVATE_MESSAGE_TYPE, \\\n    \
               ENGINE_UPLOAD_READY_MSG\nenum { PRIVATE_MESSAGE_TYPE };\n\
               #define MIN(a, b) ((a) < (b) ? (a) : (b))\nint m = MIN(1, MIN(2, 3));\n";
    let result = run_fixture("self_ref_macro.c", src, PreprocessOptions::new());
    assert!(
        result.output.contains("PRIVATE_MESSAGE_TYPE")
            && result.output.contains("ENGINE_UPLOAD_READY_MSG"),
        "{}",
        result.output
    );
    assert!(
        !result.output.contains("MIN"),
        "nested MIN leaked: {}",
        result.output
    );
}

#[test]
fn include_macro_operand_expands() {
    let files = [
        (
            "/f/include_macro.c",
            "#define NESTED \"include_macro_nested.h\"\n#include NESTED\nint v = NESTED_VAL;\n",
        ),
        ("/f/include_macro_nested.h", "#define NESTED_VAL 42\n"),
    ];
    let opts = PreprocessOptions::new().with_tree(tree(&files));
    let result = preprocess_file("/f/include_macro.c", &opts).unwrap();
    assert!(
        result.output.contains("NESTED_VAL") || result.output.contains("42"),
        "macro #include must splice nested.h: {}",
        result.output
    );
    assert!(
        result
            .included_headers
            .iter()
            .any(|p| p.ends_with("include_macro_nested.h")),
        "included_headers must record the expanded include: {:?}",
        result.included_headers
    );
    assert!(
        !result
            .diagnostics
            .iter()
            .any(|d| d.message.contains("expected string or <...>")),
        "{:?}",
        result.diagnostics
    );
}

#[test]
fn function_macro_inside_object_expansion_expands() {
    // After an object-like macro is replaced, the result is rescanned; a
    // function-like macro invoked there must be expanded too.
    let src = "#define SHARED(T) status_ ## T\n#define WRAP SHARED(Node)\n\
               int WRAP;\nint done;\n";
    let result = run_fixture("nested_fn_macro.c", src, PreprocessOptions::new());
    assert!(
        !result.output.contains("WRAP") && !result.output.contains("SHARED"),
        "macro invocations leaked verbatim: {}",
        result.output
    );
    assert!(result.output.contains("status_Node"), "{}", result.output);
    assert!(result.output.contains("done"), "{}", result.output);
}

/// A nested header whose expansion is fully skipped by an already-defined
/// guard must warn and must not be claimed by the parent's cached entry.
#[test]
fn guard_skipped_include_not_claimed_and_warned() {
    // Same content, same guard, two paths: only one can be cached.
    let list_src = "#ifndef LIST_H\n#define LIST_H\nstruct Node { int v; };\n#endif\n";
    let files = [
        ("/d/a/list.h", list_src),
        ("/d/b/list.h", list_src),
        ("/d/outer.h", "#include \"list.h\"\nint outer_use(void);\n"),
    ];
    // Warm-style pass over the first twin: defines LIST_H, caches text.
    let warm_opts = PreprocessOptions::new()
        .with_shared_macros(MacroTable::new())
        .with_accumulate_macros(true)
        .with_include_expansion_cache(ExpansionCache::new())
        .with_tree(tree(&files))
        .with_include("/d/a");
    let r1 = preprocess_file("/d/a/list.h", &warm_opts).unwrap();
    assert!(r1.output.contains("Node"), "{}", r1.output);
    let mut shared = MacroTable::new();
    shared.apply(&r1.macro_updates);
    let mut cache = cached(vec![r1]);

    // Second pass reaching the OTHER twin through outer.h: the guard is
    // already defined in the shared table, so b/list.h expands to nothing.
    let index_opts = PreprocessOptions::new()
        .with_shared_macros(shared)
        .with_accumulate_macros(true)
        .with_include_expansion_cache(cache)
        .with_tree(tree(&files))
        .with_include("/d/b");
    let r2 = preprocess_file("/d/outer.h", &index_opts).unwrap();
    // Documented consequence: content behind the leaked guard is absent.
    assert!(
        !r2.output.contains("Node"),
        "starved expansion expected here"
    );
    // (a) the starvation is visible as a diagnostic
    assert!(
        r2.diagnostics
            .iter()
            .any(|d| d.message.contains("expanded to nothing")),
        "{:?}",
        r2.diagnostics
    );
    // (b) outer.h's cached entry must not claim b/list.h as content-bearing
    cache = cached(vec![r2]);
    let claimed_b = cache
        .get("/d/outer.h")
        .map(|e| e.files.iter().any(|f| f == "/d/b/list.h"))
        .unwrap_or(false);
    assert!(!claimed_b, "claimed starved file");
}

/// Frozen preprocessing must stay silent about guard-skipped headers.
#[test]
fn frozen_cache_does_not_warn_on_guard_skip() {
    let files = [("/d/g.h", "#ifndef G_H\n#define G_H\nint g(void);\n#endif\n")];
    let mut shared = MacroTable::new();
    let toks: Vec<_> = Lexer::new("1")
        .tokenize()
        .into_iter()
        .filter(|t| !matches!(t.kind, TokenKind::Eof))
        .collect();
    shared.insert("G_H".to_string(), MacroDef::Object { replacement: toks });
    let opts = PreprocessOptions::new()
        .with_shared_macros(shared)
        .with_include_expansion_cache(ExpansionCache::new())
        .with_frozen_expansion_cache(true)
        .with_tree(tree(&files))
        .with_include("/d");
    let src = "#include \"g.h\"\nint main(void){return 0;}\n";
    let r = preprocess_string(src, "/d/m.c", &opts);
    assert!(
        !r.diagnostics
            .iter()
            .any(|d| d.message.contains("expanded to nothing")),
        "{:?}",
        r.diagnostics
    );
}

/// Diamond includes must not copy a header's cached body into live output
/// on every skip; the second parent's cache entry still embeds it.
#[test]
fn diamond_include_does_not_blow_up_and_cache_stays_self_contained() {
    let files = [
        (
            "/d/common.h",
            "#ifndef COMMON_H\n#define COMMON_H\nstruct NeedThis { int x; };\n#endif\n",
        ),
        (
            "/d/left.h",
            "#ifndef LEFT_H\n#define LEFT_H\n#include \"common.h\"\nvoid left(void);\n#endif\n",
        ),
        (
            "/d/right.h",
            "#ifndef RIGHT_H\n#define RIGHT_H\n#include \"common.h\"\nvoid right(struct NeedThis *p);\n#endif\n",
        ),
        (
            "/d/top.h",
            "#ifndef TOP_H\n#define TOP_H\n#include \"left.h\"\n#include \"right.h\"\n#endif\n",
        ),
    ];
    let warm = PreprocessOptions::new()
        .with_include_expansion_cache(ExpansionCache::new())
        .with_tree(tree(&files))
        .with_include("/d");
    let top = preprocess_file("/d/top.h", &warm).unwrap();
    let need_count = top.output.matches("NeedThis").count();
    assert!(
        need_count >= 1 && need_count <= 2,
        "live output should mention NeedThis once (maybe twice), not explode: {need_count}\n{}",
        top.output
    );
    assert!(
        top.output.len() < 1024,
        "diamond live output too large: {}",
        top.output.len()
    );

    let cache = cached(vec![top]);
    let right = cache.get("/d/right.h").expect("right.h cached");
    assert!(
        right.text.contains("NeedThis"),
        "right.h cache must be self-contained, got {}",
        right.text
    );

    // Frozen consumer that only includes right.h still sees NeedThis.
    let frozen = PreprocessOptions::new()
        .with_include_expansion_cache(cache)
        .with_frozen_expansion_cache(true)
        .with_tree(tree(&files))
        .with_include("/d");
    let c = preprocess_file("/d/right.h", &frozen).unwrap();
    assert!(
        c.output.contains("NeedThis"),
        "frozen replay of right.h lost nested common.h: {}",
        c.output
    );
}

/// n headers each including all previous ones: live output is O(n), not 2^n.
#[test]
fn chained_includes_live_output_is_linear() {
    const N: usize = 24;
    let mut t = SourceTree::new();
    for i in 0..N {
        let mut src = format!("#ifndef H{i}\n#define H{i}\n");
        for j in 0..i {
            src.push_str(&format!("#include \"h{j}.h\"\n"));
        }
        src.push_str(&format!("int v{i};\n#endif\n"));
        t.add_file(&format!("/d/h{i}.h"), &src);
    }
    let opts = PreprocessOptions::new()
        .with_include_expansion_cache(ExpansionCache::new())
        .with_tree(t)
        .with_include("/d");
    let r = preprocess_file(&format!("/d/h{}.h", N - 1), &opts).unwrap();
    for i in 0..N {
        assert!(
            r.output.contains(&format!("v{i}")),
            "missing v{i} in {}",
            r.output
        );
    }
    assert!(
        r.output.len() < 8 * 1024,
        "chained-include live output exploded: {}",
        r.output.len()
    );
}

#[test]
fn include_depth_cap_skips_deeper_nests() {
    const N: usize = 12;
    let mut t = SourceTree::new();
    for i in 0..N {
        let src = if i + 1 < N {
            format!("int v{i};\n#include \"n{}.h\"\n", i + 1)
        } else {
            format!("int v{i};\n")
        };
        t.add_file(&format!("/d/n{i}.h"), &src);
    }
    let opts = PreprocessOptions::new()
        .with_include("/d")
        .with_tree(t)
        .with_max_include_depth(6);
    let r = preprocess_file("/d/n0.h", &opts).unwrap();
    assert!(
        r.diagnostics
            .iter()
            .any(|d| d.message.contains("include depth exceeded")),
        "expected depth warning: {:?}",
        r.diagnostics
    );
    assert!(r.output.contains("v0"), "{}", r.output);
    assert!(
        !r.output.contains("v11"),
        "depth cap should not expand the whole chain: {}",
        r.output
    );
}

#[test]
fn inline_false_keeps_parent_output_file_local() {
    let files = [
        (
            "/d/common.h",
            "#ifndef COMMON_H\n#define COMMON_H\nstruct NeedThis { int x; };\n#endif\n",
        ),
        (
            "/d/top.h",
            "#ifndef TOP_H\n#define TOP_H\n#include \"common.h\"\nint from_top;\n#endif\n",
        ),
    ];
    let opts = PreprocessOptions::new()
        .with_include_expansion_cache(ExpansionCache::new())
        .with_tree(tree(&files))
        .with_include("/d")
        .with_inline_include_bodies(false);
    let top = preprocess_file("/d/top.h", &opts).unwrap();
    assert!(
        top.output.contains("from_top"),
        "parent tokens must remain: {}",
        top.output
    );
    assert!(
        !top.output.contains("NeedThis"),
        "nested header body must not be copied into parent live output: {}",
        top.output
    );
    let cache = cached(vec![top]);
    let common = cache.get("/d/common.h").expect("common.h cached");
    assert!(
        common.text.contains("NeedThis"),
        "child cache still holds its own text: {}",
        common.text
    );
}

#[test]
fn if_defined_elif_fixture() {
    let src = "#define FEATURE 1\n#if defined(FEATURE)\nint feature_on;\n#else\n\
               int feature_off;\n#endif\n#define VER 2\n#if VER == 1\nint b1;\n\
               #elif VER == 2\nint b2;\n#elif VER >= 2\nint b3;\n#else\nint b4;\n#endif\n\
               #if defined(FEATURE) && !defined(NOPE) && VER > 1\nint compound_ok;\n#endif\n\
               #define AT_LEAST(v) (VER >= (v))\n#if AT_LEAST(2)\nint fnlike_ok;\n#endif\n";
    let result = run_fixture("if_defined_elif.c", src, PreprocessOptions::new());
    assert!(result.output.contains("feature_on"), "{}", result.output);
    assert!(!result.output.contains("feature_off"), "{}", result.output);
    assert!(!result.output.contains("b1"), "{}", result.output);
    assert!(result.output.contains("b2"), "{}", result.output);
    assert!(!result.output.contains("b3"), "{}", result.output);
    assert!(!result.output.contains("b4"), "{}", result.output);
    assert!(result.output.contains("compound_ok"), "{}", result.output);
    assert!(result.output.contains("fnlike_ok"), "{}", result.output);
}

#[test]
fn preproc_if0_dead_branch() {
    let src = "#if 0\nint hidden = 42;\n#endif\nint visible = 1;\n";
    let result = run_fixture("if0.c", src, PreprocessOptions::new());
    assert!(!result.output.contains("42"));
    assert!(result.output.contains("visible = 1") || result.output.contains("int visible"));
}

#[test]
fn preproc_object_macro_paren_fixture() {
    let src = "#define HALF (.5)\n#define ORIGIN (.x = 0, .y = 0)\n#define VALUE 42\n\
               #define ALIAS (VALUE)\n#define WRAP (x) x\n#define SQUARE(x) ((x) * (x))\n\
               #define SPLICED\\\n(x) (x)\nhalf = HALF;\norigin = ORIGIN;\nalias = ALIAS;\n\
               wrap = WRAP(1);\nsquare = SQUARE(3);\nspliced = SPLICED(7);\nint after;\n";
    let result = run_fixture("object_macro_paren.c", src, PreprocessOptions::new());
    let flat = result.output.replace([' ', '\n'], "");
    assert!(flat.contains("half=(.5);"), "{}", result.output);
    assert!(flat.contains("origin=(.x=0,.y=0);"), "{}", result.output);
    assert!(flat.contains("alias=(42);"), "{}", result.output);
    assert!(flat.contains("wrap=(x)x(1);"), "{}", result.output);
    assert!(flat.contains("square=((3)*(3));"), "{}", result.output);
    assert!(flat.contains("spliced=(7);"), "{}", result.output);
    assert!(flat.contains("intafter;"), "{}", result.output);
    assert!(result.diagnostics.is_empty(), "{:?}", result.diagnostics);
}

#[test]
fn preproc_variadic_log_fixture() {
    let src = "#define COUNT 42\n#define LOG_IMPL(level, fmt, ...) emit(level, fmt, ##__VA_ARGS__)\n\
               #define LOG(fmt, args...) LOG_IMPL(1, fmt, ##args)\n\
               void f(void) {\n    LOG(\"plain\");\n    LOG(\"%d\", COUNT);\n    \
               LOG(\"%s\", \"reason\");\n}\n";
    let result = run_fixture("variadic_log.c", src, PreprocessOptions::new());
    let flat = result.output.replace(['\n', ' '], "");
    assert!(
        !flat.contains(",)"),
        "empty varargs must elide the comma through the macro chain: {}",
        result.output
    );
    assert!(
        result.output.contains("42") && !result.output.contains("COUNT"),
        "varargs must stay macro-expandable: {}",
        result.output
    );
    assert!(
        result.output.contains("\"reason\""),
        "string-literal varargs must survive: {}",
        result.output
    );
    assert!(!result.output.contains("__VA_ARGS__"), "{}", result.output);
}

fn pasted(text: &str) -> Vec<Token> {
    apply_concatenation(Lexer::new(text).tokenize())
}

fn is_paste(t: &Token) -> bool {
    matches!(&t.kind, TokenKind::Punct(p) if p == "##")
}

#[test]
fn pasting_leaves_no_paste_behind() {
    for text in ["a ## b", "## a", "a ##", "a ## ## b", "a ## b ## c d", "##", "a b"] {
        let once = pasted(text);
        assert!(!once.iter().any(is_paste), "{text}");
        let kinds: Vec<String> = once.iter().map(|t| format!("{:?}", t.kind)).collect();
        let again: Vec<String> =
            apply_concatenation(once).iter().map(|t| format!("{:?}", t.kind)).collect();
        assert_eq!(kinds, again, "{text}");
    }
    assert!(pasted("a ## b").iter().any(|t| matches!(&t.kind, TokenKind::Identifier(n) if n == "ab")));
}

#[test]
fn conditions_end_alike_taken_or_not() {
    let taken = run_fixture(
        "/s/a.c",
        "#if 0\n#elif 1 \\\n  && 1\nint in;\n#endif\nint after;\n",
        PreprocessOptions::new(),
    );
    let skipped = run_fixture(
        "/s/a.c",
        "#if 1\nint in;\n#elif 1 \\\n  && 1\nint no;\n#endif\nint after;\n",
        PreprocessOptions::new(),
    );
    for r in [&taken, &skipped] {
        assert!(r.output.contains("in") && r.output.contains("after"), "{}", r.output);
        assert!(!r.output.contains("&&") && !r.output.contains("no"), "{}", r.output);
        assert!(r.diagnostics.is_empty());
    }
}
