//! Macros that stand in for definitions in headers that a source tree does
//! not ship.

use crate::preproc::macros::{body_of, lex_macro_body, MacroDef, MacroV};
use crate::text::{cat2, cat3, names_view, owned, push_name};
use vstd::prelude::*;

verus! {

broadcast use crate::text::take_push;

pub open spec fn object_macro(body: Seq<char>) -> MacroV {
    MacroV::Object { replacement: body_of(body) }
}

pub open spec fn function_macro(params: Seq<Seq<char>>, body: Seq<char>) -> MacroV {
    MacroV::Function { params, replacement: body_of(body), variadic: false }
}

/// Markers that stand for nothing: unused parameters, and the address-space
/// and section annotations of the Linux kernel.
pub open spec fn annotation_name(k: int) -> Seq<char> {
    if k == 0 {
        "__UNUSED"@
    } else if k == 1 {
        "__user"@
    } else if k == 2 {
        "__iomem"@
    } else if k == 3 {
        "__percpu"@
    } else if k == 4 {
        "__rcu"@
    } else if k == 5 {
        "__force"@
    } else if k == 6 {
        "__init"@
    } else if k == 7 {
        "__exit"@
    } else if k == 8 {
        "__initdata"@
    } else if k == 9 {
        "__exitdata"@
    } else {
        "__read_mostly"@
    }
}

/// The widths of the integer types of `<inttypes.h>`.
pub open spec fn width_name(k: int) -> Seq<char> {
    if k == 0 {
        "8"@
    } else if k == 1 {
        "16"@
    } else if k == 2 {
        "32"@
    } else {
        "64"@
    }
}

/// What `printf` calls them.
pub open spec fn width_prefix(k: int) -> Seq<char> {
    if k == 0 {
        "hh"@
    } else if k == 1 {
        "h"@
    } else if k == 2 {
        ""@
    } else {
        "ll"@
    }
}

pub open spec fn conversion(k: int) -> Seq<char> {
    if k == 0 {
        "d"@
    } else if k == 1 {
        "i"@
    } else if k == 2 {
        "u"@
    } else if k == 3 {
        "x"@
    } else if k == 4 {
        "X"@
    } else {
        "o"@
    }
}

/// The format macro for conversion `c` of width `w`.
pub open spec fn format_macro(w: int, c: int) -> (Seq<char>, MacroV) {
    (
        "PRI"@ + conversion(c) + width_name(w),
        object_macro("\""@ + (width_prefix(w) + conversion(c)) + "\""@),
    )
}

/// Test macros that introduce a function.
pub open spec fn test_macro_name(k: int) -> Seq<char> {
    if k == 0 {
        "HWTEST"@
    } else if k == 1 {
        "HWTEST_F"@
    } else {
        "HWTEST_P"@
    }
}

/// The `k`-th of the fallbacks.
pub open spec fn fallback(k: int) -> (Seq<char>, MacroV) {
    if k < 11 {
        (annotation_name(k), object_macro(""@))
    } else if k < 35 {
        format_macro((k - 11) / 6, (k - 11) % 6)
    } else if k == 35 {
        (
            "container_of"@,
            function_macro(
                seq!["ptr"@, "type"@, "member"@],
                "( ( type * ) ( void * ) ( ptr ) )"@,
            ),
        )
    } else {
        (
            test_macro_name(k - 36),
            function_macro(seq!["a"@, "b"@, "level"@], "static void a ## _ ## b ()"@),
        )
    }
}

/// How many fallbacks there are.
pub const FALLBACK_COUNT: usize = 39;

fn object(name: String, body: &str) -> (r: (String, MacroDef))
    ensures
        r.0@ == name@,
        r.1@ == object_macro(body@),
{
    (name, MacroDef::Object { replacement: lex_macro_body(body) })
}

fn function(name: String, a: &str, b: &str, c: &str, body: &str) -> (r: (String, MacroDef))
    ensures
        r.0@ == name@,
        r.1@ == function_macro(seq![a@, b@, c@], body@),
{
    let mut params: Vec<String> = Vec::new();
    push_name(&mut params, owned(a));
    push_name(&mut params, owned(b));
    push_name(&mut params, owned(c));
    assert(names_view(params@) =~= seq![a@, b@, c@]);
    (name, MacroDef::Function { params, replacement: lex_macro_body(body), variadic: false })
}

fn annotation(k: usize) -> (r: &'static str)
    ensures
        r@ == annotation_name(k as int),
{
    if k == 0 {
        "__UNUSED"
    } else if k == 1 {
        "__user"
    } else if k == 2 {
        "__iomem"
    } else if k == 3 {
        "__percpu"
    } else if k == 4 {
        "__rcu"
    } else if k == 5 {
        "__force"
    } else if k == 6 {
        "__init"
    } else if k == 7 {
        "__exit"
    } else if k == 8 {
        "__initdata"
    } else if k == 9 {
        "__exitdata"
    } else {
        "__read_mostly"
    }
}

fn width(k: usize) -> (r: (&'static str, &'static str))
    ensures
        r.0@ == width_name(k as int),
        r.1@ == width_prefix(k as int),
{
    if k == 0 {
        ("8", "hh")
    } else if k == 1 {
        ("16", "h")
    } else if k == 2 {
        ("32", "")
    } else {
        ("64", "ll")
    }
}

fn conversion_char(k: usize) -> (r: &'static str)
    ensures
        r@ == conversion(k as int),
{
    if k == 0 {
        "d"
    } else if k == 1 {
        "i"
    } else if k == 2 {
        "u"
    } else if k == 3 {
        "x"
    } else if k == 4 {
        "X"
    } else {
        "o"
    }
}

fn test_macro(k: usize) -> (r: &'static str)
    ensures
        r@ == test_macro_name(k as int),
{
    if k == 0 {
        "HWTEST"
    } else if k == 1 {
        "HWTEST_F"
    } else {
        "HWTEST_P"
    }
}

/// The `k`-th of the fallbacks.
pub fn fallback_macro(k: usize) -> (r: (String, MacroDef))
    requires
        k < FALLBACK_COUNT,
    ensures
        (r.0@, r.1@) == fallback(k as int),
{
    if k < 11 {
        object(owned(annotation(k)), "")
    } else if k < 35 {
        let (name, prefix) = width((k - 11) / 6);
        let conv = conversion_char((k - 11) % 6);
        let body = cat3("\"", cat2(prefix, conv).as_str(), "\"");
        object(cat3("PRI", conv, name), body.as_str())
    } else if k == 35 {
        function(
            owned("container_of"),
            "ptr",
            "type",
            "member",
            "( ( type * ) ( void * ) ( ptr ) )",
        )
    } else {
        function(owned(test_macro(k - 36)), "a", "b", "level", "static void a ## _ ## b ()")
    }
}

} // verus!
