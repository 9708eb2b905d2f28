//! The preprocessor on texts.

use trace::preproc::options::PreprocessOptions;
use trace::preproc::run::preprocess_string;

#[test]
fn expands_function_like_macro() {
    let src = "#define SQUARE(x) ((x) * (x))\nint y = SQUARE(n);\n";
    let result = preprocess_string(src, "t.c", &PreprocessOptions::new());
    assert!(
        result.output.contains("((n") && result.output.contains("*"),
        "{}",
        result.output
    );
    assert!(!result.output.contains("SQUARE"));
}

#[test]
fn expands_function_like_field_macro() {
    let src = "#define FIELD_P(o) ((o)->inner.p)\nFIELD_P(obj);\n";
    let result = preprocess_string(src, "t.c", &PreprocessOptions::new());
    assert!(
        result.output.contains("inner") && result.output.contains("obj"),
        "{}",
        result.output
    );
    assert!(!result.output.contains("FIELD_P"));
}

#[test]
fn expands_token_paste_concat() {
    let src = "#define CAT(a,b) a ## b\nint CAT(x, y);\n";
    let result = preprocess_string(src, "t.c", &PreprocessOptions::new());
    assert!(
        result.output.contains("xy") || result.output.contains("x y"),
        "{}",
        result.output
    );
    assert!(!result.output.contains("CAT"));
}

#[test]
fn expands_chained_token_paste() {
    let src = "#define CAT3(a,b,c) a ## b ## c\nint CAT3(x, y, z);\n";
    let result = preprocess_string(src, "t.c", &PreprocessOptions::new());
    assert!(result.output.contains("xyz"), "{}", result.output);
}

#[test]
fn expands_object_macro() {
    let opts = PreprocessOptions::new().with_define("NULL", "0");
    let result = preprocess_string("int *p = NULL;", "test.c", &opts);
    assert!(result.output.contains("int") && result.output.contains("0"));
    assert!(!result.output.contains("NULL"));
}

/// Regression (#6): a body starting with `(.` is an object macro, not a
/// function-like macro whose parameter list begins with `...`. The old
/// classifier matched a bare `.` and then aborted the whole file when the
/// parameter list failed to parse.
#[test]
fn object_macro_body_starting_with_dot_does_not_abort() {
    let src = "#define HALF (.5)\n#define ORIGIN (.x = 0, .y = 0)\nint x = HALF;\nstruct p o = ORIGIN;\nint after;\n";
    let result = preprocess_string(src, "t.c", &PreprocessOptions::new());
    let flat = result.output.replace([' ', '\n'], "");
    assert!(flat.contains("intx=(.5);"), "{}", result.output);
    assert!(flat.contains("o=(.x=0,.y=0);"), "{}", result.output);
    assert!(flat.contains("intafter;"), "{}", result.output);
    assert!(result.diagnostics.is_empty(), "{:?}", result.diagnostics);
}

/// Regression (#7): `#define ALIAS (VALUE)` is an object macro whose body
/// is `(VALUE)`. Whitespace separates the `(` from the name, so it does
/// not open a parameter list (C11 6.10.3p10).
#[test]
fn object_macro_parenthesized_identifier_expands() {
    let src = "#define VALUE 42\n#define ALIAS (VALUE)\nint x = ALIAS;\n";
    let result = preprocess_string(src, "t.c", &PreprocessOptions::new());
    let flat = result.output.replace([' ', '\n'], "");
    assert!(flat.contains("intx=(42);"), "{}", result.output);
    assert!(!result.output.contains("ALIAS"), "{}", result.output);
    assert!(result.diagnostics.is_empty(), "{:?}", result.diagnostics);
}

/// `#define F (x) x` is an object macro even though `(x)` would be a
/// valid parameter list; `F(1)` therefore expands to `(x) x(1)` (gcc).
#[test]
fn function_like_macro_requires_paren_adjacent_to_name() {
    let src = "#define F (x) x\nint y = F(1);\n";
    let result = preprocess_string(src, "t.c", &PreprocessOptions::new());
    let flat = result.output.replace([' ', '\n'], "");
    assert!(flat.contains("inty=(x)x(1);"), "{}", result.output);
}

/// `\`-newline is spliced before the `(` adjacency test (translation
/// phase 2), so `F\` + `(x)` on the next line is function-like, while a
/// space before the `\` still separates the `(` from the name.
#[test]
fn function_like_macro_name_split_by_line_splice() {
    let src = "#define F\\\n(x) x\n#define G \\\n(x) x\nint a = F(7);\nint b = G(7);\n";
    let result = preprocess_string(src, "t.c", &PreprocessOptions::new());
    let flat = result.output.replace([' ', '\n'], "");
    assert!(flat.contains("inta=7;"), "{}", result.output);
    assert!(flat.contains("intb=(x)x(7);"), "{}", result.output);
    assert!(result.diagnostics.is_empty(), "{:?}", result.diagnostics);
}

#[test]
fn preproc_if0_skips_define_in_dead_branch() {
    let src = "#if 0\n#define HIDDEN 42\n#endif\nint x = 1;\n";
    let result = preprocess_string(src, "t.c", &PreprocessOptions::new());
    assert!(!result.output.contains("42"));
    assert!(result.output.contains("x = 1") || result.output.contains("int x"));
}

/// Regression: `#pragma pack(push, 4)` immediately followed by a struct
/// definition (e.g. OpenHarmony pwm_if.h) must not swallow the next line.
#[test]
fn pragma_keeps_next_line_and_does_not_warn() {
    let src = "#pragma pack(push, 4)\nstruct PwmConfig {\n    int duty;\n};\n#pragma pack(pop)\nint after;\n";
    let result = preprocess_string(src, "t.c", &PreprocessOptions::new());
    assert!(
        result.output.contains("struct PwmConfig"),
        "line after #pragma was swallowed: {}",
        result.output
    );
    assert!(result.output.contains("after"), "{}", result.output);
    assert!(
        !result.output.contains("pack"),
        "pragma text must not leak into output: {}",
        result.output
    );
    assert!(
        !result
            .diagnostics
            .iter()
            .any(|d| d.message.contains("unknown directive")),
        "#pragma is a standard directive, no warning expected: {:?}",
        result.diagnostics
    );
}

#[test]
fn line_directive_keeps_next_line() {
    let src = "#line 100 \"orig.c\"\nint kept;\n";
    let result = preprocess_string(src, "t.c", &PreprocessOptions::new());
    assert!(result.output.contains("kept"), "{}", result.output);
}

#[test]
fn unknown_directive_warns_but_keeps_next_line() {
    let src = "#frobnicate all the things\nint kept;\n";
    let result = preprocess_string(src, "t.c", &PreprocessOptions::new());
    assert!(result.output.contains("kept"), "{}", result.output);
    assert!(
        result
            .diagnostics
            .iter()
            .any(|d| d.message.contains("unknown directive")),
        "{:?}",
        result.diagnostics
    );
}

#[test]
fn handles_ifdef() {
    let opts = PreprocessOptions::new().with_define("FEATURE", "1");
    let src = "#ifdef FEATURE\nint x;\n#else\nint y;\n#endif\n";
    let result = preprocess_string(src, "test.c", &opts);
    assert!(result.output.contains("int x") || result.output.contains("int  x"));
    assert!(!result.output.contains("int y"));
}

#[test]
fn if_macro_value_expands_in_condition() {
    let src = "#define OUTER 1\n#if OUTER\nint on;\n#else\nint off;\n#endif\n";
    let result = preprocess_string(src, "t.c", &PreprocessOptions::new());
    assert!(result.output.contains("on"), "{}", result.output);
    assert!(!result.output.contains("off"), "{}", result.output);
}

#[test]
fn self_referential_object_macro_is_not_reexpanded() {
    // Hiview `PRIVATE_MESSAGE_TYPE` X-macro: the replacement list starts
    // with the macro's own name (an enumerator). C11 6.10.3.4 paints
    // that token so expansion terminates; without a hide set this
    // recurses until the stack overflows.
    let src = "\
#define PRIVATE_MESSAGE_TYPE \\\n\
    PRIVATE_MESSAGE_TYPE, \\\n\
    ENGINE_UPLOAD_READY_MSG\n\
enum { PRIVATE_MESSAGE_TYPE };\n";
    let result = preprocess_string(src, "t.c", &PreprocessOptions::new());
    assert!(
        result.output.contains("PRIVATE_MESSAGE_TYPE")
            && result.output.contains("ENGINE_UPLOAD_READY_MSG"),
        "{}",
        result.output
    );
    assert!(
        !result
            .diagnostics
            .iter()
            .any(|d| d.message.contains("expansion depth exceeded")),
        "{:?}",
        result.diagnostics
    );
}

#[test]
fn mutual_object_macros_terminate() {
    let src = "#define A B+B\n#define B A\nint x = A;\n";
    let result = preprocess_string(src, "t.c", &PreprocessOptions::new());
    let compact: String = result
        .output
        .chars()
        .filter(|c| !c.is_whitespace())
        .collect();
    assert!(
        compact.contains("A+A") || compact.contains("x=A+A"),
        "{}",
        result.output
    );
    assert!(
        !result
            .diagnostics
            .iter()
            .any(|d| d.message.contains("expansion depth exceeded")),
        "{:?}",
        result.diagnostics
    );
}

#[test]
fn nested_same_function_macro_still_expands() {
    let src = "#define MIN(a, b) ((a) < (b) ? (a) : (b))\nint x = MIN(MIN(1, 2), 3);\n";
    let result = preprocess_string(src, "t.c", &PreprocessOptions::new());
    assert!(
        !result.output.contains("MIN"),
        "nested MIN must fully expand: {}",
        result.output
    );
    assert!(
        result.output.contains("1") && result.output.contains("3"),
        "{}",
        result.output
    );
}

#[test]
fn cpp_operator_call_keeps_adjacent_parens() {
    let src = "struct Fn { void operator()() {} };\n";
    let result = preprocess_string(src, "t.cpp", &PreprocessOptions::new());
    assert!(
        result.output.contains("operator()"),
        "operator() must not become operator( ): {}",
        result.output
    );
    assert!(!result.output.contains("operator( )"), "{}", result.output);
    let src = "void f(const std::shared_ptr<Plugin> &p);\n";
    let result = preprocess_string(src, "t.cpp", &PreprocessOptions::new());
    assert!(
        result.output.contains("> &") || result.output.contains("> &p"),
        "template-id and reference must not glue: {}",
        result.output
    );
}

#[test]
fn unused_macro_is_predefined_empty() {
    let src = "void f(int &x __UNUSED) { (void)x; }\n";
    let result = preprocess_string(src, "t.cpp", &PreprocessOptions::new());
    assert!(
        !result.output.contains("__UNUSED"),
        "__UNUSED must expand away: {}",
        result.output
    );
    assert!(
        result.output.contains("int") && result.output.contains("&"),
        "{}",
        result.output
    );
}

#[test]
fn kernel_annotation_macros_predefined_empty() {
    let src = "static long Read(struct file* f, char __user* buf);\n\
               static int __init DriverInit(void) { return 0; }\n\
               static void __exit DriverExit(void) {}\n";
    let result = preprocess_string(src, "t.c", &PreprocessOptions::new());
    for name in ["__user", "__init", "__exit"] {
        assert!(
            !result.output.contains(name),
            "{name} must expand away: {}",
            result.output
        );
    }
    assert!(result.output.contains("DriverInit"), "{}", result.output);
}

#[test]
fn container_of_macro_predefined() {
    let src = "void f(struct Node* p) { struct Dev* d = container_of(p, struct Dev, node); }\n";
    let result = preprocess_string(src, "t.c", &PreprocessOptions::new());
    assert!(
        !result.output.contains("container_of"),
        "container_of must expand away: {}",
        result.output
    );
    assert!(
        result.output.contains("struct Dev *") || result.output.contains("struct Dev*"),
        "expansion must cast to the requested type: {}",
        result.output
    );
}

#[test]
fn pri_format_macros_predefined() {
    let src = "void f(unsigned long long v) { printf(\"val %\" PRIu64 \"\\n\", v); }\n";
    let result = preprocess_string(src, "t.c", &PreprocessOptions::new());
    assert!(
        !result.output.contains("PRIu64"),
        "PRIu64 must expand to a string literal: {}",
        result.output
    );
    assert!(result.output.contains("\"llu\""), "{}", result.output);
}

#[test]
fn hwtest_macros_predefined_as_functions() {
    let src = "HWTEST_F(FooTest, Bar, TestSize.Level1)\n{\n    int x = 0;\n    (void)x;\n}\n";
    let result = preprocess_string(src, "t.cpp", &PreprocessOptions::new());
    assert!(
        !result.output.contains("HWTEST_F"),
        "HWTEST_F must expand away: {}",
        result.output
    );
    assert!(
        result.output.contains("FooTest_Bar"),
        "expansion must produce a pasted function name: {}",
        result.output
    );
    assert!(
        !result.output.contains("TestSize"),
        "the level argument must be dropped: {}",
        result.output
    );
}

#[test]
fn ifndef_guard_defines_real_macro_over_builtin() {
    let src = "#ifndef container_of\n\
               #define container_of(p, t, m) CUSTOM_CONTAINER(p)\n\
               #endif\n\
               int x = container_of(q, struct D, f);\n";
    let result = preprocess_string(src, "t.c", &PreprocessOptions::new());
    assert!(
        result.output.contains("CUSTOM_CONTAINER"),
        "an #ifndef-guarded real definition must beat the builtin fallback: {}",
        result.output
    );
}

#[test]
fn builtin_fallback_invisible_to_conditionals() {
    let src = "#ifdef __user\nint user_visible;\n#endif\n\
               #if defined(__init)\nint init_visible;\n#endif\n\
               int done;\n";
    let result = preprocess_string(src, "t.c", &PreprocessOptions::new());
    assert!(
        !result.output.contains("user_visible") && !result.output.contains("init_visible"),
        "builtin fallbacks must not satisfy #ifdef/defined(): {}",
        result.output
    );
    assert!(result.output.contains("done"), "{}", result.output);
}

#[test]
fn fallback_stays_identifier_in_if_expression() {
    let src = "#if 1 || __init\nint kept;\n#endif\n\
               #if __init\nint dropped;\n#endif\n\
               int done;\n";
    let result = preprocess_string(src, "t.c", &PreprocessOptions::new());
    assert!(
        result.output.contains("kept"),
        "a fallback in a #if expression must evaluate as an undefined \
         identifier (0), not expand to nothing and mangle the expression: {}",
        result.output
    );
    assert!(!result.output.contains("dropped"), "{}", result.output);
    assert!(result.output.contains("done"), "{}", result.output);
}

/// Spacing-insensitive view of preprocessed output, so assertions
/// don't depend on the emitter's whitespace choices.
fn flat(output: &str) -> String {
    output.replace(['\n', ' '], "")
}

#[test]
fn unnamed_variadic_empty_args_elide_comma() {
    let src = "#define LOG(fmt, ...) printf(fmt, ##__VA_ARGS__)\n\
               void f(void) { LOG(\"plain\"); }\n";
    let result = preprocess_string(src, "t.c", &PreprocessOptions::new());
    assert!(
        !flat(&result.output).contains(",)"),
        "GNU `, ##__VA_ARGS__` with no varargs must elide the comma: {}",
        result.output
    );
    assert!(result.output.contains("printf"), "{}", result.output);
}

#[test]
fn unnamed_variadic_forwards_args_once() {
    let src = "#define LOG(fmt, ...) printf(fmt, ##__VA_ARGS__)\n\
               void f(void) { LOG(\"num %d\", 1); }\n";
    let result = preprocess_string(src, "t.c", &PreprocessOptions::new());
    assert_eq!(
        result.output.matches("num %d").count(),
        1,
        "__VA_ARGS__ must not re-substitute the named parameters: {}",
        result.output
    );
    assert_eq!(
        result.output.matches('1').count(),
        1,
        "varargs must be substituted exactly once: {}",
        result.output
    );
}

#[test]
fn zero_named_param_variadic_expands() {
    let src = "#define TRACE(...) log_event(__VA_ARGS__)\n\
               void f(void) { TRACE(); TRACE(1, 2); }\n";
    let result = preprocess_string(src, "t.c", &PreprocessOptions::new());
    assert!(
        flat(&result.output).contains("log_event()"),
        "empty __VA_ARGS__ must expand to nothing: {}",
        result.output
    );
    assert!(
        flat(&result.output).contains("log_event(1,2)"),
        "{}",
        result.output
    );
}

#[test]
fn variadic_string_vararg_survives() {
    let src = "#define LOG(fmt, ...) printf(fmt, ##__VA_ARGS__)\n\
               void f(void) { LOG(\"%s\", \"reason\"); }\n";
    let result = preprocess_string(src, "t.c", &PreprocessOptions::new());
    assert!(
        result.output.contains("\"reason\""),
        "a string-literal vararg must not be destroyed by comma pasting: {}",
        result.output
    );
    assert!(!flat(&result.output).contains(",)"), "{}", result.output);
}

#[test]
fn variadic_comma_stays_punct_for_nested_split() {
    let src = "#define INNER(a, b) use(a); use(b);\n\
               #define WRAP(fmt, ...) INNER(fmt, ##__VA_ARGS__)\n\
               void f(void) { WRAP(\"f\", x); }\n";
    let result = preprocess_string(src, "t.c", &PreprocessOptions::new());
    assert!(
        flat(&result.output).contains("use(x)"),
        "the separator comma must stay a real token so nested macros split \
         their arguments: {}",
        result.output
    );
    assert!(!flat(&result.output).contains("use()"), "{}", result.output);
}

#[test]
fn variadic_first_vararg_still_macro_expands() {
    let src = "#define COUNT 42\n\
               #define LOG(fmt, ...) printf(fmt, ##__VA_ARGS__)\n\
               void f(void) { LOG(\"%d\", COUNT); }\n";
    let result = preprocess_string(src, "t.c", &PreprocessOptions::new());
    assert!(
        result.output.contains("42"),
        "the first vararg must stay expandable on rescan: {}",
        result.output
    );
    assert!(!result.output.contains("COUNT"), "{}", result.output);
}

#[test]
fn named_variadic_va_args_spelling_aliases_to_tail() {
    let src = "#define LOGE(fmt, args...) HiLogPrint(fmt, ##__VA_ARGS__)\n\
               void f(void) { LOGE(\"oom\", n); }\n";
    let result = preprocess_string(src, "t.c", &PreprocessOptions::new());
    assert!(
        !result.output.contains("__VA_ARGS__"),
        "__VA_ARGS__ in a named-variadic body must alias the tail param: {}",
        result.output
    );
    assert!(result.output.contains('n'), "{}", result.output);
}

#[test]
fn param_list_line_continuation() {
    let src = "#define LOG(fmt, \\\n    ...) printf(fmt, ##__VA_ARGS__)\n\
               void f(void) { LOG(\"x\"); }\nint after;\n";
    let result = preprocess_string(src, "t.c", &PreprocessOptions::new());
    assert!(
        result.output.contains("printf") && result.output.contains("after"),
        "a continued parameter list must not abort the file: {}",
        result.output
    );
}

#[test]
fn named_variadic_continuation_before_ellipsis() {
    let src = "#define F(x, args \\\n...) g(x, ##args)\n\
               void h(void) { F(1); F(2, 3); }\n";
    let result = preprocess_string(src, "t.c", &PreprocessOptions::new());
    assert!(
        flat(&result.output).contains("g(1)"),
        "a continuation between a named variadic and `...` must parse: {}",
        result.output
    );
    assert!(flat(&result.output).contains("g(2,3)"), "{}", result.output);
}

#[test]
fn continuation_before_close_does_not_leak_paren() {
    let src = "#define VLOG(fmt, ... \\\n) printf(fmt)\n\
               void f(void) { VLOG(\"x\"); }\n";
    let result = preprocess_string(src, "t.c", &PreprocessOptions::new());
    assert!(
        result.output.contains("printf(\"x\")") && !result.output.contains(") printf"),
        "tokens after `...` must not leak into the replacement list: {}",
        result.output
    );
}

#[test]
fn explicitly_empty_vararg_keeps_comma() {
    // gcc/clang: `, ##__VA_ARGS__` deletes the comma only when the
    // varargs are OMITTED; an explicitly supplied empty argument keeps
    // it (F(1) -> g(1) but F(1,) -> g(1,); verified against both).
    let src = "#define F(x, ...) g(x, ##__VA_ARGS__)\n\
               void h(void) { F(1); }\nvoid k(void) { F(2,); }\n";
    let result = preprocess_string(src, "t.c", &PreprocessOptions::new());
    assert!(
        flat(&result.output).contains("g(1)"),
        "omitted varargs must elide the comma: {}",
        result.output
    );
    assert!(
        flat(&result.output).contains("2,)"),
        "an explicitly empty vararg must keep the comma like gcc: {}",
        result.output
    );
}

#[test]
fn whitespace_only_explicit_vararg_keeps_comma() {
    let src = "#define LOG(fmt, ...) printf(fmt, ##__VA_ARGS__)\n\
               void f(void) { LOG(\"x\",\n); }\n";
    let result = preprocess_string(src, "t.c", &PreprocessOptions::new());
    assert!(
        flat(&result.output).contains(",)"),
        "a whitespace-only explicit vararg keeps the comma like gcc: {}",
        result.output
    );
}

#[test]
fn lone_blank_argument_counts_as_omitted() {
    let src = "#define G(...) f(0, ##__VA_ARGS__)\n\
               void h(void) { G(); G( ); }\n";
    let result = preprocess_string(src, "t.c", &PreprocessOptions::new());
    assert!(
        !flat(&result.output).contains(",)"),
        "G() supplies zero arguments, so the comma is elided: {}",
        result.output
    );
}

#[test]
fn non_variadic_hash_hash_empty_arg_keeps_comma() {
    let src = "#define M(a, b) f(a, ## b)\nvoid g(void) { M(x, ); }\n";
    let result = preprocess_string(src, "t.c", &PreprocessOptions::new());
    assert!(
        flat(&result.output).contains("f(x,)"),
        "GNU comma deletion applies only to variadic tails; a non-variadic \
         empty ##-argument keeps the comma like gcc: {}",
        result.output
    );
}

#[test]
fn truncated_param_list_in_expansion_does_not_panic() {
    // The expansion of DECL re-scans a `#define` whose parameter list is
    // truncated mid-`...`; this must degrade to a diagnostic, not panic.
    let src = "#define DECL(x) #define x(...\nDECL(FOO)\nint after(void);\n";
    let result = preprocess_string(src, "t.c", &PreprocessOptions::new());
    assert!(
        flat(&result.output).contains("intafter(void);"),
        "{}",
        result.output
    );
}

/// An unterminated parameter list ends at the newline like any other
/// directive: warn, drop the definition, keep the following code (gcc
/// errors and continues; it never lets the list run on to a `)` on a
/// later line).
#[test]
fn unterminated_param_list_keeps_following_code() {
    let src =
        "#define PARTIAL(x, ...\nint before(void);\nint f(int a) { return (a); }\nint after;\n";
    let result = preprocess_string(src, "t.c", &PreprocessOptions::new());
    let out = flat(&result.output);
    assert!(out.contains("intbefore(void);"), "{}", result.output);
    assert!(out.contains("intf(inta){return(a);}"), "{}", result.output);
    assert!(out.contains("intafter;"), "{}", result.output);
    assert!(
        result
            .diagnostics
            .iter()
            .any(|d| d.message.contains("unterminated macro parameter list")),
        "{:?}",
        result.diagnostics
    );
    assert!(!result.output.contains("PARTIAL"), "{}", result.output);
}

#[test]
fn unterminated_param_list_without_ellipsis_keeps_following_code() {
    let src = "#define PARTIAL(x,\nint f(int a) { return (a); }\n";
    let result = preprocess_string(src, "t.c", &PreprocessOptions::new());
    assert!(
        flat(&result.output).contains("intf(inta){return(a);}"),
        "{}",
        result.output
    );
    assert!(
        result
            .diagnostics
            .iter()
            .any(|d| d.message.contains("unterminated macro parameter list")),
        "{:?}",
        result.diagnostics
    );
}

/// A malformed (but terminated) list is dropped the same way instead of
/// stopping preprocessing of the whole file.
#[test]
fn malformed_param_list_keeps_following_code() {
    let src = "#define BAD(x y) x\nint after;\n";
    let result = preprocess_string(src, "t.c", &PreprocessOptions::new());
    assert!(result.output.contains("after"), "{}", result.output);
    assert!(
        !result
            .diagnostics
            .iter()
            .any(|d| d.message.contains("preprocess stopped")),
        "{:?}",
        result.diagnostics
    );
}

#[test]
fn variadic_logging_macro_chain_expands_cleanly() {
    let src = "#define HILOG_DEBUG(label, fmt, args...) printf(fmt, ##args)\n\
               #define DECORATOR_HILOG(op, fmt, args...) op(\"L\", fmt, ##args)\n\
               #define MEDIA_DEBUG_LOG(fmt, ...) DECORATOR_HILOG(HILOG_DEBUG, fmt, ##__VA_ARGS__)\n\
               void f(void)\n{\n\
               MEDIA_DEBUG_LOG(\"plain\");\n\
               MEDIA_DEBUG_LOG(\"num %d\", 1);\n}\n";
    let result = preprocess_string(src, "t.c", &PreprocessOptions::new());
    assert!(
        !flat(&result.output).contains(",)"),
        "empty varargs must elide the comma through the nested chain: {}",
        result.output
    );
    assert_eq!(
        result.output.matches("num %d").count(),
        1,
        "arguments must be forwarded exactly once through the chain: {}",
        result.output
    );
}

#[test]
fn builtin_fallback_yields_to_source_definition() {
    let src = "#define __init KEEP_ME\nint __init x;\n";
    let result = preprocess_string(src, "t.c", &PreprocessOptions::new());
    assert!(
        result.output.contains("KEEP_ME"),
        "a source #define must override the builtin fallback: {}",
        result.output
    );
}

#[test]
fn self_referential_function_macro_terminates() {
    let src = "#define F(x) F(x)\nint y = F(1);\n";
    let result = preprocess_string(src, "t.c", &PreprocessOptions::new());
    assert!(
        result.output.contains("F") && result.output.contains("1"),
        "{}",
        result.output
    );
    assert!(
        !result
            .diagnostics
            .iter()
            .any(|d| d.message.contains("expansion depth exceeded")),
        "{:?}",
        result.diagnostics
    );
}

#[test]
fn object_macro_with_parenthesized_value() {
    let src = "#define START (-100)\nint x = START;\n";
    let result = preprocess_string(src, "t.c", &PreprocessOptions::new());
    assert!(
        result.output.contains("(-100)")
            || result.output.contains("-100")
            || result.output.contains("- 100"),
        "{}",
        result.output
    );
    assert!(!result.output.contains("START"));
}

#[test]
fn variadic_macro_empty_args_strips_hash_hash() {
    let src = "#define WRAP(fmt, arg...) BASE(fmt, ##arg)\nWRAP(\"x\");\n";
    let result = preprocess_string(src, "t.c", &PreprocessOptions::new());
    assert!(
        result.output.contains("BASE") && result.output.contains("\"x\""),
        "{}",
        result.output
    );
    assert!(
        !result.output.contains(", ,"),
        "should not leave dangling comma: {}",
        result.output
    );
}

#[test]
fn enum_body_define_does_not_break_preproc() {
    let src = "typedef enum {\n    A = 1,\n#define OFF (-100)\n    B = OFF,\n} E;\n";
    let result = preprocess_string(src, "t.c", &PreprocessOptions::new());
    assert!(!result
        .diagnostics
        .iter()
        .any(|d| { d.message.contains("expected identifier in directive") }));
}

#[test]
fn token_budget_stops_explosive_macro_expansion() {
    let src = "\
#define A B B B B B B B B
#define B C C C C C C C C
#define C D D D D D D D D
#define D E E E E E E E E
#define E 1
int x = A;
";
    let opts = PreprocessOptions::new().with_max_expanded_tokens(2_000);
    let result = preprocess_string(src, "t.c", &opts);
    assert!(
        result
            .diagnostics
            .iter()
            .any(|d| d.message.contains("token budget exceeded")),
        "expected token-budget diagnostic: {:?}",
        result.diagnostics
    );
}

#[test]
fn if_defined_true_when_macro_defined() {
    let src = "#define FEATURE 1\n#if defined(FEATURE)\nint kept;\n#endif\n#if defined FEATURE\nint kept_noparen;\n#endif\n";
    let result = preprocess_string(src, "t.c", &PreprocessOptions::new());
    assert!(result.output.contains("kept"), "{}", result.output);
    assert!(result.output.contains("kept_noparen"), "{}", result.output);
}

#[test]
fn if_defined_false_when_macro_undefined() {
    let src = "#if defined(MISSING)\nint dropped;\n#endif\nint after;\n";
    let result = preprocess_string(src, "t.c", &PreprocessOptions::new());
    assert!(!result.output.contains("dropped"), "{}", result.output);
    assert!(result.output.contains("after"), "{}", result.output);
}

#[test]
fn if_not_defined_false_when_macro_defined() {
    let src = "#define FEATURE 1\n#if !defined(FEATURE)\nint dropped;\n#endif\nint after;\n";
    let result = preprocess_string(src, "t.c", &PreprocessOptions::new());
    assert!(!result.output.contains("dropped"), "{}", result.output);
    assert!(result.output.contains("after"), "{}", result.output);
}

#[test]
fn if_defined_conjunction_requires_both() {
    let both = "#define A 1\n#define B 1\n#if defined(A) && defined(B)\nint kept;\n#endif\n";
    let result = preprocess_string(both, "t.c", &PreprocessOptions::new());
    assert!(result.output.contains("kept"), "{}", result.output);
    let one = "#define A 1\n#if defined(A) && defined(B)\nint dropped;\n#endif\n";
    let result = preprocess_string(one, "t.c", &PreprocessOptions::new());
    assert!(!result.output.contains("dropped"), "{}", result.output);
}

#[test]
fn if_not_defined_binds_tighter_than_and() {
    // (!defined A) && (defined B): A defined, B defined -> false && true = false.
    let src = "#define A 1\n#define B 1\n#if !defined(A) && defined(B)\nint dropped;\n#endif\n";
    let result = preprocess_string(src, "t.c", &PreprocessOptions::new());
    assert!(!result.output.contains("dropped"), "{}", result.output);
    // A undefined, B defined -> true && true = true.
    let src = "#define B 1\n#if !defined(A) && defined(B)\nint kept;\n#endif\n";
    let result = preprocess_string(src, "t.c", &PreprocessOptions::new());
    assert!(result.output.contains("kept"), "{}", result.output);
}

#[test]
fn elif_not_taken_after_taken_if() {
    let src = "#if 1\nint first;\n#elif 1\nint second;\n#else\nint third;\n#endif\n";
    let result = preprocess_string(src, "t.c", &PreprocessOptions::new());
    assert!(result.output.contains("first"), "{}", result.output);
    assert!(!result.output.contains("second"), "{}", result.output);
    assert!(!result.output.contains("third"), "{}", result.output);
}

#[test]
fn else_not_taken_after_taken_elif() {
    let src = "#if 0\nint first;\n#elif 1\nint second;\n#elif 1\nint third;\n#else\nint fourth;\n#endif\n";
    let result = preprocess_string(src, "t.c", &PreprocessOptions::new());
    assert!(!result.output.contains("first"), "{}", result.output);
    assert!(result.output.contains("second"), "{}", result.output);
    assert!(!result.output.contains("third"), "{}", result.output);
    assert!(!result.output.contains("fourth"), "{}", result.output);
}

#[test]
fn else_taken_when_no_branch_matched() {
    let src = "#if 0\nint first;\n#elif 0\nint second;\n#else\nint third;\n#endif\n";
    let result = preprocess_string(src, "t.c", &PreprocessOptions::new());
    assert!(!result.output.contains("first"), "{}", result.output);
    assert!(!result.output.contains("second"), "{}", result.output);
    assert!(result.output.contains("third"), "{}", result.output);
}

#[test]
fn if_comparisons_and_parens() {
    let src = "#define VERSION 3\n#if (VERSION >= 2) && !defined(MISSING)\nint kept;\n#endif\n#if VERSION == 2\nint dropped;\n#endif\n";
    let result = preprocess_string(src, "t.c", &PreprocessOptions::new());
    assert!(result.output.contains("kept"), "{}", result.output);
    assert!(!result.output.contains("dropped"), "{}", result.output);
}

#[test]
fn if_or_precedence_over_and() {
    // C precedence: 1 || 0 && 0 == 1 || (0 && 0) -> true.
    let src = "#if 1 || 0 && 0\nint kept;\n#endif\n";
    let result = preprocess_string(src, "t.c", &PreprocessOptions::new());
    assert!(result.output.contains("kept"), "{}", result.output);
}

#[test]
fn if_unknown_identifier_evaluates_to_zero() {
    let src = "#if TOTALLY_UNDEFINED_NAME\nint dropped;\n#endif\nint after;\n";
    let result = preprocess_string(src, "t.c", &PreprocessOptions::new());
    assert!(!result.output.contains("dropped"), "{}", result.output);
    assert!(result.output.contains("after"), "{}", result.output);
}

#[test]
fn if_defined_chained_macro_definition() {
    // Operand of defined() must not be macro-expanded (C11 6.10.1p4).
    let src = "#define ON 1\n#define FEATURE ON\n#if defined(FEATURE)\nint kept;\n#endif\n";
    let result = preprocess_string(src, "t.c", &PreprocessOptions::new());
    assert!(result.output.contains("kept"), "{}", result.output);
}

#[test]
fn if_function_like_macro_expands_in_condition() {
    let src =
        "#define GE(a, b) ((a) >= (b))\n#if GE(3, 2)\nint kept;\n#else\nint dropped;\n#endif\n";
    let result = preprocess_string(src, "t.c", &PreprocessOptions::new());
    assert!(result.output.contains("kept"), "{}", result.output);
    assert!(!result.output.contains("dropped"), "{}", result.output);
}

#[test]
fn if_function_like_macro_uses_object_macro_args() {
    let src = "#define V 3\n#define ATLEAST(x) (V >= (x))\n#if ATLEAST(2)\nint kept;\n#else\nint dropped;\n#endif\n";
    let result = preprocess_string(src, "t.c", &PreprocessOptions::new());
    assert!(result.output.contains("kept"), "{}", result.output);
    assert!(!result.output.contains("dropped"), "{}", result.output);
}

#[test]
fn if_trailing_garbage_is_false() {
    let src = "#if 1 garbage\nint dropped;\n#endif\nint after;\n";
    let result = preprocess_string(src, "t.c", &PreprocessOptions::new());
    assert!(!result.output.contains("dropped"), "{}", result.output);
    assert!(result.output.contains("after"), "{}", result.output);
}

#[test]
fn if_unbalanced_paren_is_false() {
    let src = "#if (0 || 1\nint dropped;\n#endif\nint after;\n";
    let result = preprocess_string(src, "t.c", &PreprocessOptions::new());
    assert!(!result.output.contains("dropped"), "{}", result.output);
    assert!(result.output.contains("after"), "{}", result.output);
}

#[test]
fn if_condition_spans_line_continuation() {
    let src = "#if 0 || \\\n    1\nint kept;\n#endif\n";
    let result = preprocess_string(src, "t.c", &PreprocessOptions::new());
    assert!(result.output.contains("kept"), "{}", result.output);
    assert!(
        !result.output.contains("\n1"),
        "continuation line must not leak: {}",
        result.output
    );
}

#[test]
fn if_unsigned_64bit_literal_is_positive() {
    let src = "#if 0xffffffffffffffffULL > 0\nint big_ok;\n#endif\n#if 0xFFFFFFFF & 0x80000000\nint mask_ok;\n#endif\n";
    let result = preprocess_string(src, "t.c", &PreprocessOptions::new());
    assert!(result.output.contains("big_ok"), "{}", result.output);
    assert!(result.output.contains("mask_ok"), "{}", result.output);
}

#[test]
fn if_unsigned_conversion_semantics() {
    // Usual arithmetic conversions at uintmax width (C11 6.10.1p4):
    // a signed operand converts to unsigned when the other is unsigned.
    let src = "#if -1 < 1U\nint sc_dropped;\n#endif\n\
#if ~0U > 65535\nint probe_ok;\n#endif\n\
#if -1 > 0U\nint wrap_ok;\n#endif\n\
#if (0x8000000000000000 >> 63) == 1\nint shr_u_ok;\n#endif\n\
#if (-2 >> 1) == -1\nint shr_s_ok;\n#endif\n";
    let result = preprocess_string(src, "t.c", &PreprocessOptions::new());
    assert!(!result.output.contains("sc_dropped"), "{}", result.output);
    assert!(result.output.contains("probe_ok"), "{}", result.output);
    assert!(result.output.contains("wrap_ok"), "{}", result.output);
    assert!(result.output.contains("shr_u_ok"), "{}", result.output);
    assert!(result.output.contains("shr_s_ok"), "{}", result.output);
}

#[test]
fn if_true_false_keywords() {
    let src = "#if true\nint t_kept;\n#endif\n#if false\nint f_dropped;\n#endif\n";
    let result = preprocess_string(src, "t.cpp", &PreprocessOptions::new());
    assert!(result.output.contains("t_kept"), "{}", result.output);
    assert!(!result.output.contains("f_dropped"), "{}", result.output);
}

#[test]
fn if_ternary_combines_branch_types() {
    // The ternary result type is the common type of BOTH arms (int +
    // unsigned -> unsigned), even for the untaken arm.
    let src = "#if (1 ? -1 : 1U) < 0\nint uns_dropped;\n#endif\n#if (1 ? -1 : 1) < 0\nint sgn_kept;\n#endif\n";
    let result = preprocess_string(src, "t.c", &PreprocessOptions::new());
    assert!(!result.output.contains("uns_dropped"), "{}", result.output);
    assert!(result.output.contains("sgn_kept"), "{}", result.output);
}

#[test]
fn if_object_macro_aliasing_function_like_rescans() {
    let src = "#define GE(a, b) ((a) >= (b))\n#define CALL GE\n#if CALL(3, 2)\nint kept;\n#else\nint dropped;\n#endif\n";
    let result = preprocess_string(src, "t.c", &PreprocessOptions::new());
    assert!(result.output.contains("kept"), "{}", result.output);
    assert!(!result.output.contains("dropped"), "{}", result.output);
}

#[test]
fn skipped_group_tolerates_malformed_ifdef() {
    let src = "#if 0\n#ifdef 123\nint x;\n#endif\n#endif\nint after;\n";
    let result = preprocess_string(src, "t.c", &PreprocessOptions::new());
    assert!(result.output.contains("after"), "{}", result.output);
    assert!(!result.output.contains("int x"), "{}", result.output);
    assert!(
        !result
            .diagnostics
            .iter()
            .any(|d| d.message.contains("expected identifier")),
        "{:?}",
        result.diagnostics
    );
}

#[test]
fn skipped_elif_condition_consumes_continuation() {
    let src = "#if 1\nint a;\n#elif 0 && \\\n#endif\nint x;\n#endif\nint tail;\n";
    let result = preprocess_string(src, "t.c", &PreprocessOptions::new());
    assert!(result.output.contains("int a"), "{}", result.output);
    assert!(!result.output.contains("int x"), "{}", result.output);
    assert!(result.output.contains("tail"), "{}", result.output);
    assert!(
        !result
            .diagnostics
            .iter()
            .any(|d| d.message.contains("without #if")),
        "{:?}",
        result.diagnostics
    );
}

#[test]
fn if_char_escapes() {
    let src = "#if '\\x41' == 65\nint hex_ok;\n#endif\n#if '\\101' == 65\nint oct_ok;\n#endif\n#if '\\012' == 10\nint oct2_ok;\n#endif\n";
    let result = preprocess_string(src, "t.c", &PreprocessOptions::new());
    assert!(result.output.contains("hex_ok"), "{}", result.output);
    assert!(result.output.contains("oct_ok"), "{}", result.output);
    assert!(result.output.contains("oct2_ok"), "{}", result.output);
}

#[test]
fn if_line_builtin_positive() {
    let src = "#if __LINE__ > 0\nint kept;\n#endif\n";
    let result = preprocess_string(src, "t.c", &PreprocessOptions::new());
    assert!(result.output.contains("kept"), "{}", result.output);
}

#[test]
fn variadic_macro_definition_expands_in_condition() {
    let src = "#define ANY(...) 1\n#if ANY(x)\nint kept;\n#endif\n";
    let result = preprocess_string(src, "t.c", &PreprocessOptions::new());
    assert!(result.output.contains("kept"), "{}", result.output);
}

#[test]
fn cpp_digit_separators_in_condition() {
    let src = "#if 1'000'000 > 999999\nint kept;\n#endif\n";
    let result = preprocess_string(src, "t.cpp", &PreprocessOptions::new());
    assert!(result.output.contains("kept"), "{}", result.output);
}

#[test]
fn elif_after_else_is_diagnosed() {
    let src = "#if 0\n#elif 0\n#else\nint a;\n#elif 1\nint b;\n#endif\n";
    let result = preprocess_string(src, "t.c", &PreprocessOptions::new());
    assert!(result.output.contains("int a"), "{}", result.output);
    assert!(!result.output.contains("int b"), "{}", result.output);
    assert!(
        result
            .diagnostics
            .iter()
            .any(|d| d.message.contains("#elif after #else")),
        "{:?}",
        result.diagnostics
    );
}

#[test]
fn condition_expansion_bomb_hits_budget() {
    // 2^27 tokens if fully expanded; the budget must stop it quickly,
    // warn, and conservatively skip the branch. (Regression guard for
    // the budget itself: the unguarded expander OOMed on this input.)
    let mut src = String::from("#define Z0 z z\n");
    for n in 1..=27 {
        src.push_str(&format!("#define Z{n} Z{} Z{}\n", n - 1, n - 1));
    }
    src.push_str("#if Z27\nint dropped;\n#endif\nint after;\n");
    let result = preprocess_string(&src, "t.c", &PreprocessOptions::new());
    assert!(!result.output.contains("dropped"), "{}", result.output);
    assert!(result.output.contains("after"), "{}", result.output);
    assert!(
        result
            .diagnostics
            .iter()
            .any(|d| d.message.contains("expansion budget exceeded in #if")),
        "{:?}",
        result.diagnostics
    );
}

#[test]
fn skipped_groups_write_nothing() {
    let src = "#if 0\nx # name y\n#endif\nint z;\n";
    let result = preprocess_string(src, "t.c", &PreprocessOptions::new());
    assert!(!result.output.contains("name"));
    assert!(result.output.contains("int z"));
    assert!(result.diagnostics.is_empty());
    let live = preprocess_string("x # name y\n", "t.c", &PreprocessOptions::new());
    assert!(live.output.contains("\"name\""));
}
