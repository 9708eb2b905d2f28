//! What holds of every run of the preprocessor.

use crate::ir::diagnostic::DiagnosticSeverity;
use crate::preproc::builtins::FALLBACK_COUNT;
use crate::preproc::compose::out_slice;
use crate::preproc::directives::{
    begins_line, continues_line, ends_line, long_line_end, skip_newlines,
};
use crate::preproc::lexer::{lex, lex_from, lexeme, lexeme_bounds, next_u32, position_after};
use crate::preproc::line_map::offset_u32;
use crate::preproc::macros::{apply_ops, body_of, MacroOpV, MacroV};
use crate::preproc::options::{canonical_of, ExpansionV};
use crate::preproc::run::{blank_state, file_result, initial_room, initial_state, string_result};
use crate::preproc::semantics::UseV;
use crate::preproc::state::{ErrorV, OptionsV, OutPos, StateV};
use crate::preproc::steps::{
    conds_sound, entries_sound, extends, extends_refl, found_before, is_kept, later, later_refl,
    later_trans, logged, logged_trans, name_grows, quietly, runs_op, sound, takes_file,
    takes_tokens, visible,
};
use crate::preproc::substitute::painted;
use crate::preproc::token::{plain, KindV, TokenV};
use crate::text::{byte_len, sat_usize, with_name, with_names};
use vstd::prelude::*;

verus! {

proof fn position_goes_on(src: Seq<char>, from: int, to: int, line: u32, col: u32)
    ensures
        position_after(src, from, to, line, col).0 >= line,
    decreases to - from,
{
    if from < to {
        if src[from] == '\n' {
            position_goes_on(src, from + 1, to, next_u32(line), 1);
        } else {
            position_goes_on(src, from + 1, to, line, next_u32(col));
        }
    }
}

proof fn tokens_go_on(src: Seq<char>, i: int, line: u32, col: u32)
    ensures
        ({
            let ts = lex_from(src, i, line, col);
            &&& ts.len() > 0
            &&& ts.last().kind == KindV::Eof
            &&& forall|k: int| 0 <= k < ts.len() - 1 ==> (#[trigger] ts[k]).kind != KindV::Eof
            &&& forall|k: int| 0 <= k < ts.len() ==> (#[trigger] ts[k]).line >= line
            &&& forall|a: int, b: int|
                0 <= a <= b < ts.len() ==> (#[trigger] ts[a]).line <= (#[trigger] ts[b]).line
        }),
    decreases src.len() - i,
{
    if 0 <= i < src.len() {
        let (kind, end) = lexeme(src, i);
        let (l, c) = position_after(src, i, end, line, col);
        lexeme_bounds(src, i);
        position_goes_on(src, i, end, line, col);
        tokens_go_on(src, end, l, c);
        let rest = lex_from(src, end, l, c);
        let ts = lex_from(src, i, line, col);
        match kind {
            Some(k) => {
                assert(ts =~= seq![plain(k, line, col)] + rest);
                assert forall|a: int| 1 <= a < ts.len() implies (#[trigger] ts[a]) == rest[a
                    - 1] by {}
                assert(ts.last() == rest.last());
            },
            None => {},
        }
    }
}

/// A text has one end, behind all of its tokens, and the lines of its tokens
/// never go back.
pub proof fn tokens_are_in_order(src: Seq<char>)
    ensures
        lex(src).len() > 0,
        lex(src).last().kind == KindV::Eof,
        forall|k: int| 0 <= k < lex(src).len() - 1 ==> (#[trigger] lex(src)[k]).kind != KindV::Eof,
        forall|a: int, b: int|
            0 <= a <= b < lex(src).len() ==> (#[trigger] lex(src)[a]).line <= (
            #[trigger] lex(src)[b]).line,
{
    tokens_go_on(src, 0, 1, 1);
}

/// The table that a run starts from.
pub open spec fn shared_table(opts: OptionsV) -> Map<Seq<char>, MacroV> {
    blank_state(opts, Seq::empty()).macros
}

/// Whether one of the first `n` definitions of the command line is of a name.
pub open spec fn among_defines(
    defines: Seq<(Seq<char>, Seq<char>)>,
    n: int,
    name: Seq<char>,
) -> bool {
    exists|k: int| 0 <= k < n && (#[trigger] defines[k]).0 == name
}

proof fn defined_so_far(
    blank: StateV,
    defines: Seq<(Seq<char>, Seq<char>)>,
    n: int,
    table: Map<Seq<char>, MacroV>,
)
    requires
        sound(blank),
        blank.fallbacks == Set::<Seq<char>>::empty(),
        blank.macros == table,
        0 <= n <= defines.len(),
    ensures
        ({
            let st = blank.with_defines(defines, n, table);
            &&& sound(st)
            &&& later(blank, st)
            &&& st.fallbacks == Set::<Seq<char>>::empty()
            &&& st.conds == blank.conds
            &&& forall|name: Seq<char>| #[trigger]
                st.macros.contains_key(name) <==> table.contains_key(name) || among_defines(
                    defines,
                    n,
                    name,
                )
        }),
    decreases n,
{
    later_refl(blank);
    let st = blank.with_defines(defines, n, table);
    if n <= 0 {
    } else {
        defined_so_far(blank, defines, n - 1, table);
        let before = blank.with_defines(defines, n - 1, table);
        let (name, value) = defines[n - 1];
        let op = MacroOpV::Define(
            name,
            MacroV::Object { replacement: body_of(value) },
        );
        later_refl(before);
        runs_op(before, op);
        later_trans(blank, before, st);
        assert(st.fallbacks =~= Set::<Seq<char>>::empty());
        assert forall|x: Seq<char>| #[trigger]
            st.macros.contains_key(x) <==> table.contains_key(x) || among_defines(
                defines,
                n,
                x,
            ) by {
            assert(before.macros.contains_key(x) <==> table.contains_key(x) || among_defines(
                defines,
                n - 1,
                x,
            ));
            if among_defines(defines, n - 1, x) {
                let k = choose|k: int| 0 <= k < n - 1 && (#[trigger] defines[k]).0 == x;
                assert(among_defines(defines, n, x));
            }
            if among_defines(defines, n, x) {
                let k = choose|k: int| 0 <= k < n && (#[trigger] defines[k]).0 == x;
                if k < n - 1 {
                    assert(among_defines(defines, n - 1, x));
                }
            }
            if x == name {
                assert(defines[n - 1].0 == x);
                assert(among_defines(defines, n, x));
            }
        }
    }
}

proof fn fallen_back_so_far(st: StateV, n: int)
    requires
        sound(st),
        st.fallbacks == Set::<Seq<char>>::empty(),
    ensures
        ({
            let after = st.with_fallbacks(n);
            &&& sound(after)
            &&& visible(after) == st.macros
            &&& after.shared_ops == st.shared_ops
            &&& after.conds == st.conds
            &&& after.out == st.out
            &&& after.diags == st.diags
            &&& after.cfg == st.cfg
            &&& after.fallbacks.subset_of(after.macros.dom())
        }),
    decreases n,
{
    if n <= 0 {
        assert(visible(st) =~= st.macros);
    } else {
        fallen_back_so_far(st, n - 1);
        let before = st.with_fallbacks(n - 1);
        let after = st.with_fallbacks(n);
        assert(visible(after) =~= visible(before));
    }
}

/// A run starts sound, with nothing but the shared table and the command line
/// for conditionals to see.
proof fn starts(opts: OptionsV, file: Seq<char>)
    ensures
        sound(initial_state(opts, file)),
        opts.cfg.accumulate ==> visible(initial_state(opts, file)) == apply_ops(
            shared_table(opts),
            initial_state(opts, file).shared_ops,
        ),
        initial_state(opts, file).cfg == opts.cfg,
        initial_state(opts, file).conds.len() == 0,
{
    let blank = blank_state(opts, file);
    assert(sound(blank)) by {
        assert(byte_len(blank.out) == 0);
    }
    defined_so_far(blank, opts.defines, opts.defines.len() as int, blank.macros);
    let st = blank.with_defines(opts.defines, opts.defines.len() as int, blank.macros);
    fallen_back_so_far(st, FALLBACK_COUNT as int);
    if opts.cfg.accumulate {
        assert(st.shared_ops.skip(0) =~= st.shared_ops);
    }
}

/// Before the first token conditionals see exactly the names that the shared
/// table or the command line defines: a builtin fallback is there to be
/// expanded, but `#ifdef` does not see it.
pub proof fn conditionals_see_no_fallback(opts: OptionsV, file: Seq<char>, name: Seq<char>)
    ensures
        initial_state(opts, file).is_defined(name) <==> shared_table(opts).contains_key(name)
            || among_defines(opts.defines, opts.defines.len() as int, name),
{
    let blank = blank_state(opts, file);
    assert(sound(blank)) by {
        assert(byte_len(blank.out) == 0);
    }
    defined_so_far(blank, opts.defines, opts.defines.len() as int, blank.macros);
    let st = blank.with_defines(opts.defines, opts.defines.len() as int, blank.macros);
    fallen_back_so_far(st, FALLBACK_COUNT as int);
    let start = initial_state(opts, file);
    assert(start.is_defined(name) <==> visible(start).contains_key(name));
    assert(st.macros.contains_key(name) <==> blank.macros.contains_key(name) || among_defines(
        opts.defines,
        opts.defines.len() as int,
        name,
    ));
}

/// The state after the last token of a text.
pub open spec fn end_of_text(source: Seq<char>, file: Seq<char>, opts: OptionsV) -> StateV {
    initial_state(opts, file).tokens(lex(source), 0, initial_room(opts), 0).0
}

/// Where definitions are added to the shared table, the updates that a run
/// gives back lead from that table to the one that its conditionals see at
/// the end.
pub proof fn updates_lead_to_the_last_table(source: Seq<char>, file: Seq<char>, opts: OptionsV)
    requires
        opts.cfg.accumulate,
    ensures
        visible(end_of_text(source, file, opts)) == apply_ops(
            shared_table(opts),
            string_result(source, file, opts).macro_updates,
        ),
{
    let start = initial_state(opts, file);
    starts(opts, file);
    takes_tokens(start, lex(source), 0, initial_room(opts), 0);
    let end = end_of_text(source, file, opts);
    assert(Seq::<MacroOpV>::empty() =~= start.shared_ops.take(0));
    assert(start.shared_ops.skip(0) =~= start.shared_ops);
    assert(logged(shared_table(opts), Seq::empty(), visible(start), start.shared_ops));
    logged_trans(
        shared_table(opts),
        Seq::empty(),
        visible(start),
        start.shared_ops,
        visible(end),
        end.shared_ops,
    );
    assert(end.shared_ops.skip(0) =~= end.shared_ops);
}

/// The state after the last token of a file.
pub open spec fn end_of_file(path: Seq<char>, opts: OptionsV) -> StateV {
    initial_state(opts, path).file(path, initial_room(opts), 0).0
}

/// Where definitions are added to the shared table, the updates that a file
/// gives back lead from that table to the one that its conditionals see at
/// the end.
pub proof fn updates_of_files_lead_to_the_last_table(path: Seq<char>, opts: OptionsV)
    requires
        opts.cfg.accumulate,
        file_result(path, opts) is Ok,
    ensures
        visible(end_of_file(path, opts)) == apply_ops(
            shared_table(opts),
            file_result(path, opts)->Ok_0.macro_updates,
        ),
{
    reveal(file_result);
    let start = initial_state(opts, path);
    starts(opts, path);
    takes_file(start, path, initial_room(opts), 0);
    let end = end_of_file(path, opts);
    assert(Seq::<MacroOpV>::empty() =~= start.shared_ops.take(0));
    assert(start.shared_ops.skip(0) =~= start.shared_ops);
    assert(logged(shared_table(opts), Seq::empty(), visible(start), start.shared_ops));
    logged_trans(
        shared_table(opts),
        Seq::empty(),
        visible(start),
        start.shared_ops,
        visible(end),
        end.shared_ops,
    );
    assert(end.shared_ops.skip(0) =~= end.shared_ops);
}

/// The files that went into a run are listed once each.
pub proof fn files_are_listed_once(source: Seq<char>, path: Seq<char>, opts: OptionsV)
    ensures
        string_result(source, path, opts).included_headers.no_duplicates(),
        file_result(path, opts) is Ok ==> file_result(
            path,
            opts,
        )->Ok_0.included_headers.no_duplicates(),
{
    reveal(file_result);
    starts(opts, path);
    takes_tokens(initial_state(opts, path), lex(source), 0, initial_room(opts), 0);
    takes_file(initial_state(opts, path), path, initial_room(opts), 0);
}

/// At the end of a text, as after each of its tokens, every level of `#if` is
/// consistent: a branch is active only if it has been taken and the text
/// around it is active.
pub proof fn conditionals_stay_consistent(source: Seq<char>, file: Seq<char>, opts: OptionsV)
    ensures
        conds_sound(end_of_text(source, file, opts).conds),
{
    starts(opts, file);
    takes_tokens(initial_state(opts, file), lex(source), 0, initial_room(opts), 0);
}

/// Text is active only if every branch that it lies in is.
pub proof fn active_text_lies_in_active_branches(st: StateV, k: int)
    requires
        conds_sound(st.conds),
        st.is_active(),
        0 <= k < st.conds.len(),
    ensures
        st.conds[k].active,
        st.conds[k].taken,
    decreases st.conds.len() - k,
{
    if k < st.conds.len() - 1 {
        active_text_lies_in_active_branches(st, k + 1);
        assert(st.conds[k + 1].parent_active == (k + 1 == 0 || st.conds[k].active));
    }
}

/// Once a branch of an `#if` has been taken, no later `#elif` or `#else` of it
/// is active.
pub proof fn one_branch_is_taken(st: StateV, ts: Seq<TokenV>, i: int)
    requires
        st.conds.len() > 0,
        st.conds.last().taken,
    ensures
        !st.elif(ts, i).0.is_active(),
        st.elif(ts, i).0.conds.last().taken,
        !st.else_(ts, i).0.is_active(),
        st.else_(ts, i).0.conds.last().taken,
{
}

/// An `#else` is active if and only if the text around the `#if` is and none
/// of its branches has been taken.
pub proof fn else_takes_what_is_left(st: StateV, ts: Seq<TokenV>, i: int)
    requires
        st.conds.len() > 0,
    ensures
        st.else_(ts, i).0.is_active() == (st.conds.last().parent_active && !st.conds.last().taken),
{
}

/// Whether a line that begins at `start` and may be continued ends at `k`: the
/// text does, or there is an end of a line that no backslash continues.
pub open spec fn is_long_line_end(ts: Seq<TokenV>, start: int, k: int) -> bool {
    ends_line(ts, k) && !(start < k && continues_line(ts, k - 1))
}

proof fn first_line_end(ts: Seq<TokenV>, start: int, i: int)
    requires
        0 <= start <= i <= ts.len(),
        start < i ==> !continues_line(ts, i - 1),
        forall|k: int| start <= k < i ==> !#[trigger] is_long_line_end(ts, start, k),
    ensures
        i <= long_line_end(ts, i) <= ts.len(),
        is_long_line_end(ts, start, long_line_end(ts, i)),
        forall|k: int|
            start <= k < long_line_end(ts, i) ==> !#[trigger] is_long_line_end(ts, start, k),
    decreases ts.len() - i,
{
    if ends_line(ts, i) {
    } else if continues_line(ts, i) {
        assert(!is_long_line_end(ts, start, i));
        assert(!is_long_line_end(ts, start, i + 1));
        first_line_end(ts, start, i + 2);
    } else {
        assert(!is_long_line_end(ts, start, i));
        first_line_end(ts, start, i + 1);
    }
}

/// A condition ends at the first end of a line that no backslash continues,
/// whether it is evaluated or skipped.
pub proof fn conditions_end_alike(st: StateV, other: StateV, ts: Seq<TokenV>, start: int)
    requires
        0 <= start <= ts.len(),
    ensures
        start <= long_line_end(ts, start) <= ts.len(),
        is_long_line_end(ts, start, long_line_end(ts, start)),
        forall|k: int|
            start <= k < long_line_end(ts, start) ==> !#[trigger] is_long_line_end(ts, start, k),
        st.if_(ts, start).1 == Ok::<int, ErrorV>(long_line_end(ts, start)),
        st.if_(ts, start).1 == other.if_(ts, start).1,
        st.conds.len() > 0 ==> st.elif(ts, start).1 == Ok::<int, ErrorV>(long_line_end(ts, start)),
        st.conds.len() > 0 && other.conds.len() > 0 ==> st.elif(ts, start).1 == other.elif(
            ts,
            start,
        ).1,
{
    first_line_end(ts, start, start);
}

/// Whether a directive opens a level of `#if`.
pub open spec fn opens_level(name: Seq<char>) -> bool {
    name == "if"@ || name == "ifdef"@ || name == "ifndef"@
}

/// What is wrong with a directive that needs an `#if` and has none.
pub open spec fn without_if(name: Seq<char>) -> Seq<char> {
    "#"@ + name + " without #if"@
}

/// Whether one error has been reported, and nothing else.
pub open spec fn one_error_more(a: StateV, b: StateV, message: Seq<char>) -> bool {
    &&& b.diags.len() == a.diags.len() + 1
    &&& b.diags.drop_last() == a.diags
    &&& b.diags.last().severity == DiagnosticSeverity::Error
    &&& b.diags.last().message == message
}

/// What a directive does to the levels of `#if`, but for one that draws in a
/// file: `#if`, `#ifdef` and `#ifndef` open one level, unless a name is missing;
/// `#elif` and `#else` go on with the innermost one, and `#endif` closes it,
/// and without one they are wrong, and one error says so; all others leave the
/// levels as they are. No directive makes text active that lies in text that is
/// not.
pub proof fn directives_open_and_close_levels(
    st: StateV,
    ts: Seq<TokenV>,
    start: int,
    room: nat,
    depth: int,
    name: Seq<char>,
)
    requires
        start <= skip_newlines(ts, start + 1) < ts.len(),
        ts[skip_newlines(ts, start + 1)].kind == KindV::Identifier(name),
        name != "include"@,
    ensures
        ({
            let (after, r) = st.directive(ts, start, room, depth);
            let n = st.conds.len();
            if opens_level(name) {
                if r is Ok {
                    after.conds.len() == n + 1 && after.conds.drop_last() == st.conds && (
                    after.is_active() ==> st.is_active())
                } else {
                    after.conds == st.conds && st.is_active() && name != "if"@
                }
            } else if name == "elif"@ || name == "else"@ {
                if n == 0 {
                    r == Err::<int, ErrorV>(ErrorV::Message { message: without_if(name) })
                        && after.conds == st.conds && one_error_more(st, after, without_if(name))
                } else {
                    r is Ok && after.conds.len() == n && after.conds.drop_last()
                        == st.conds.drop_last() && (after.is_active()
                        ==> st.conds.last().parent_active)
                }
            } else if name == "endif"@ {
                if n == 0 {
                    r == Err::<int, ErrorV>(ErrorV::Message { message: without_if(name) })
                        && after.conds == st.conds && one_error_more(st, after, without_if(name))
                } else {
                    r is Ok && after.conds == st.conds.drop_last()
                }
            } else {
                after.conds == st.conds
            }
        }),
{
    reveal_strlit("if");
    reveal_strlit("ifdef");
    reveal_strlit("ifndef");
    reveal_strlit("elif");
    reveal_strlit("else");
    reveal_strlit("endif");
    reveal_strlit("define");
    reveal_strlit("undef");
    reveal_strlit("line");
    reveal_strlit("pragma");
    reveal_strlit("include");
    assert("define"@[0] == 'd' && "ifndef"@[0] == 'i');
    assert("elif"@[2] == 'i' && "else"@[2] == 's');
    assert("ifdef"@[0] == 'i' && "endif"@[0] == 'e' && "undef"@[0] == 'u');
    reveal_strlit("#");
    reveal_strlit(" without #if");
    reveal_strlit("#elif without #if");
    reveal_strlit("#else without #if");
    reveal_strlit("#endif without #if");
    assert(without_if("elif"@) =~= "#elif without #if"@);
    assert(without_if("else"@) =~= "#else without #if"@);
    assert(without_if("endif"@) =~= "#endif without #if"@);
    let i = skip_newlines(ts, start + 1) + 1;
    let (after, r) = st.directive(ts, start, room, depth);
    if name == "if"@ {
        assert(after == st.if_(ts, i).0);
        assert(after.conds.drop_last() =~= st.conds);
    } else if name == "ifdef"@ {
        assert(after == st.ifdef(ts, i, true).0);
        if r is Ok {
            assert(after.conds.drop_last() =~= st.conds);
        }
    } else if name == "ifndef"@ {
        assert(after == st.ifdef(ts, i, false).0);
        if r is Ok {
            assert(after.conds.drop_last() =~= st.conds);
        }
    } else if name == "elif"@ {
        assert(after == st.elif(ts, i).0);
        if st.conds.len() > 0 {
            assert(after.conds.drop_last() =~= st.conds.drop_last());
        } else {
            assert(after.diags.drop_last() =~= st.diags);
        }
    } else if name == "else"@ {
        assert(after == st.else_(ts, i).0);
        if st.conds.len() > 0 {
            assert(after.conds.drop_last() =~= st.conds.drop_last());
        } else {
            assert(after.diags.drop_last() =~= st.diags);
        }
    } else if name == "endif"@ {
        assert(after == st.endif(ts, i).0);
        if st.conds.len() == 0 {
            assert(after.diags.drop_last() =~= st.diags);
        }
    } else if name == "define"@ {
        assert(after.conds == st.conds);
    } else if name == "undef"@ {
        assert(after.conds == st.conds);
    }
}

/// Text without directives that is not active adds nothing to the output and
/// the line map and defines nothing; and while the budgets last, nothing is
/// wrong with it and nothing is reported.
pub proof fn skipped_text_is_silent(st: StateV, ts: Seq<TokenV>, i: int, room: nat, depth: int)
    requires
        !st.is_active(),
        forall|k: int|
            0 <= k < ts.len() && (#[trigger] ts[k]).kind == KindV::Hash ==> !begins_line(ts, k),
    ensures
        ({
            let (after, r) = st.tokens(ts, i, room, depth);
            &&& after.out == st.out
            &&& after.line_map == st.line_map
            &&& after.macros == st.macros
            &&& after.conds == st.conds
            &&& st.tokens + ts.len() - i <= st.cfg.max_tokens && st.out_len <= st.cfg.max_bytes
                ==> r is Ok && after.diags == st.diags
        }),
    decreases ts.len() - i,
{
    if 0 <= i < ts.len() {
        let (counted, r) = st.count_token(ts[i].line);
        if r is Ok && ts[i].kind != KindV::Eof {
            skipped_text_is_silent(counted, ts, i + 1, room, depth);
        }
    }
}

/// Where headers are inlined, output is only ever added to, no report is
/// lost, and the length that is kept of the output is its length in bytes, as
/// far as that can be told.
pub proof fn output_only_grows(st: StateV, ts: Seq<TokenV>, i: int, room: nat, depth: int)
    requires
        sound(st),
        st.cfg.inline,
    ensures
        extends(st.tokens(ts, i, room, depth).0.out, st.out),
        extends(st.tokens(ts, i, room, depth).0.diags, st.diags),
        st.tokens(ts, i, room, depth).0.out_len == sat_usize(
            byte_len(st.tokens(ts, i, room, depth).0.out) as int,
        ),
{
    takes_tokens(st, ts, i, room, depth);
}

/// Where headers are inlined and none is kept for later, the line map of a
/// text is in order, and nothing in it lies beyond the output.
pub proof fn line_map_is_in_order(source: Seq<char>, file: Seq<char>, opts: OptionsV)
    requires
        opts.cfg.inline,
        opts.cfg.cache is None,
    ensures
        entries_sound(
            string_result(source, file, opts).line_map.entries,
            offset_u32(sat_usize(byte_len(string_result(source, file, opts).output) as int)),
        ),
{
    starts(opts, file);
    takes_tokens(initial_state(opts, file), lex(source), 0, initial_room(opts), 0);
}

/// A file that a run has met is not read again, whatever path leads to it: it
/// adds nothing, defines nothing and reports nothing.
pub proof fn files_are_read_once(st: StateV, path: Seq<char>, room: nat, depth: int)
    requires
        st.guard.contains(canonical_of(st.cfg.tree, path)),
    ensures
        st.file(path, room, depth).1 is Ok,
        st.file(path, room, depth).0.out == st.out,
        st.file(path, room, depth).0.macros == st.macros,
        st.file(path, room, depth).0.conds == st.conds,
        st.file(path, room, depth).0.guard == st.guard,
        st.file(path, room, depth).0.line_map == st.line_map,
        st.file(path, room, depth).0.diags == st.diags,
        st.file(path, room, depth).0.file == st.file,
{
}

/// What a run has met it does not forget.
pub proof fn met_files_stay_met(
    st: StateV,
    ts: Seq<TokenV>,
    i: int,
    room: nat,
    depth: int,
    file: Seq<char>,
)
    requires
        sound(st),
        st.guard.contains(file),
    ensures
        st.tokens(ts, i, room, depth).0.guard.contains(file),
{
    takes_tokens(st, ts, i, room, depth);
}

/// A macro's own name is not expanded again in what the macro stands for,
/// whatever its body holds and whatever is expanded there.
pub proof fn expansions_end(
    st: StateV,
    body: Seq<TokenV>,
    origin: TokenV,
    name: Seq<char>,
    i: int,
)
    requires
        0 <= i < body.len(),
        body[i].kind == KindV::Identifier(name),
    ensures
        st.use_at(painted(body, origin, name), i) == UseV::Nothing,
{
    name_grows(with_names(body[i].hidden, origin.hidden), name);
    assert(painted(body, origin, name)[i].hidden.contains(name));
}

/// The state in which a header's text is read.
pub open spec fn opened(st: StateV, path: Seq<char>) -> StateV {
    let noted = st.note_missing(path);
    let canonical = canonical_of(st.cfg.tree, path);
    StateV {
        guard: with_name(noted.guard, canonical),
        frames: noted.frames.push(Seq::empty()),
        file: path,
        ..noted
    }
}

/// Whether reading a header gives an expansion to keep: its text can be read,
/// and neither has it been met nor has an expansion been kept before.
pub open spec fn is_first_reading(st: StateV, path: Seq<char>) -> bool {
    let canonical = canonical_of(st.cfg.tree, path);
    &&& is_kept(st, canonical)
    &&& !st.guard.contains(canonical)
    &&& st.expansion(canonical) is None
    &&& st.cfg.tree.contains_key(path)
    &&& st.cfg.tree[path].content is Ok
}

/// The state after the last token of a header, back in the file that names it.
pub open spec fn read_through(st: StateV, path: Seq<char>, room: nat, depth: int) -> StateV {
    let (last, r) = opened(st, path).tokens(
        lex(st.cfg.tree[path].content->Ok_0),
        0,
        (room - 1) as nat,
        depth,
    );
    let noted = match r {
        Err(e) => last.warn(1, "preprocess stopped in "@ + last.file + ": "@ + e.text()),
        Ok(_) => last,
    };
    StateV { file: st.file, ..noted }
}

proof fn first_reading(st: StateV, path: Seq<char>, room: nat, depth: int)
    requires
        is_first_reading(st, path),
        room > 0,
    ensures
        st.file(path, room, depth).0 == read_through(st, path, room, depth).close_header(
            path,
            canonical_of(st.cfg.tree, path),
            st.cfg.tree[path].content->Ok_0,
            st.pos(),
            st.guard.len() as int,
            st.ops.len() as int,
        ),
{
    assert(st.note_missing(path) == st);
}

/// What is kept of a header at its end.
proof fn kept_at_the_end(
    back: StateV,
    path: Seq<char>,
    canonical: Seq<char>,
    content: Seq<char>,
    start: OutPos,
    guard_len: int,
    ops_len: int,
)
    requires
        is_kept(back, canonical),
        back.expansion(canonical) is None,
        0 <= ops_len <= back.ops.len(),
    ensures
        ({
            let end = back.close_header(path, canonical, content, start, guard_len, ops_len);
            &&& end.macros == back.macros
            &&& end.out == back.out
            &&& match end.expansion(canonical) {
                Some(e) => {
                    &&& e.ops == back.ops.skip(ops_len)
                    &&& back.cfg.inline && back.frames.len() > 0 && back.frames.last().len() == 0
                        ==> e.text == out_slice(
                        back.out,
                        start.chars as int,
                        back.pos().chars as int,
                    )
                },
                None => back.ops.skip(ops_len).len() == 0,
            }
        }),
{
    let end = back.close_header(path, canonical, content, start, guard_len, ops_len);
    if end.added != back.added {
        found_before(back.added, end.added.last(), canonical, 0);
    }
}

/// Whether an expansion has the definitions between two states, and, where
/// nothing was skipped, the text between them.
pub open spec fn is_kept_of(e: Option<ExpansionV>, st: StateV, end: StateV, skipped: bool) -> bool {
    match e {
        Some(e) => {
            &&& end.macros == apply_ops(st.macros, e.ops)
            &&& st.cfg.inline && end.out.len() <= usize::MAX && !skipped ==> end.out == st.out
                + e.text
        },
        None => end.macros == st.macros,
    }
}

proof fn read_through_keeps(st: StateV, path: Seq<char>, room: nat, depth: int)
    requires
        sound(st),
        is_first_reading(st, path),
        room > 0,
    ensures
        ({
            let back = read_through(st, path, room, depth);
            &&& back.cfg == st.cfg
            &&& back.expansion(canonical_of(st.cfg.tree, path)) is None
            &&& back.frames.len() > 0
            &&& logged(st.macros, st.ops, back.macros, back.ops)
            &&& st.cfg.inline ==> extends(back.out, st.out)
        }),
{
    let canonical = canonical_of(st.cfg.tree, path);
    let text = st.cfg.tree[path].content->Ok_0;
    let start = opened(st, path);
    name_grows(st.guard, canonical);
    extends_refl(st.diags);
    quietly(st, start);
    takes_tokens(start, lex(text), 0, (room - 1) as nat, depth);
    assert(start.guard.contains(canonical));
}

proof fn is_kept_of_what_was_read(
    st: StateV,
    back: StateV,
    end: StateV,
    e: Option<ExpansionV>,
)
    requires
        back.cfg == st.cfg,
        back.frames.len() > 0,
        logged(st.macros, st.ops, back.macros, back.ops),
        st.cfg.inline ==> extends(back.out, st.out),
        end.macros == back.macros,
        end.out == back.out,
        match e {
            Some(e) => {
                &&& e.ops == back.ops.skip(st.ops.len() as int)
                &&& back.cfg.inline && back.frames.last().len() == 0 ==> e.text == out_slice(
                    back.out,
                    st.pos().chars as int,
                    back.pos().chars as int,
                )
            },
            None => back.ops.skip(st.ops.len() as int).len() == 0,
        },
    ensures
        is_kept_of(e, st, end, back.frames.last().len() > 0),
{
    match e {
        Some(e) => {
            if st.cfg.inline && end.out.len() <= usize::MAX && back.frames.last().len() == 0 {
                assert(back.out.take(st.out.len() as int) == st.out);
                assert(st.out + e.text =~= back.out);
            }
        },
        None => {},
    }
}

/// The expansion that is kept of a header has the definitions that reading it
/// made: replayed on the table that the header was met with, they give the
/// table that it left. Where no header was skipped in it, the expansion's text
/// is what it added to the output.
pub proof fn kept_headers_replay_alike(st: StateV, path: Seq<char>, room: nat, depth: int)
    requires
        sound(st),
        is_first_reading(st, path),
        room > 0,
    ensures
        is_kept_of(
            st.file(path, room, depth).0.expansion(canonical_of(st.cfg.tree, path)),
            st,
            st.file(path, room, depth).0,
            read_through(st, path, room, depth).frames.last().len() > 0,
        ),
{
    let canonical = canonical_of(st.cfg.tree, path);
    let back = read_through(st, path, room, depth);
    let end = st.file(path, room, depth).0;
    read_through_keeps(st, path, room, depth);
    first_reading(st, path, room, depth);
    kept_at_the_end(
        back,
        path,
        canonical,
        st.cfg.tree[path].content->Ok_0,
        st.pos(),
        st.guard.len() as int,
        st.ops.len() as int,
    );
    is_kept_of_what_was_read(st, back, end, end.expansion(canonical));
}

/// Replaying an expansion runs its definitions, and adds its text where there
/// is room for it.
pub proof fn replay_runs_what_was_kept(st: StateV, canonical: Seq<char>, e: ExpansionV)
    requires
        sound(st),
        st.cfg.inline,
        sat_usize(st.out_len + byte_len(e.text)) <= st.cfg.max_bytes,
    ensures
        st.replay(canonical, e).macros == apply_ops(st.macros, e.ops),
        st.replay(canonical, e).out == st.out + e.text,
{
    let s = StateV {
        out: st.out + e.text,
        out_len: sat_usize(st.out_len + byte_len(e.text)),
        ..st
    };
    macros_after(s, e.ops);
}

proof fn macros_after(st: StateV, ops: Seq<MacroOpV>)
    ensures
        st.run_ops(ops).macros == apply_ops(st.macros, ops),
        st.run_ops(ops).out == st.out,
    decreases ops.len(),
{
    if ops.len() > 0 {
        macros_after(st, ops.drop_last());
    }
}

} // verus!
