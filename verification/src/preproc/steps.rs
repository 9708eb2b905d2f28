//! What every step of a run keeps to.

use crate::paths::{dir_of, is_header_path, joined};
use crate::preproc::directives::{
    aliased, begins_line, body_tokens, header_name, line_end, list_open, long_line, long_line_end,
    macro_args, params_from, skip_newlines, ArgsV, ParamsV,
};
use crate::preproc::lexer::lex;
use crate::preproc::line_map::{offset_u32, LineMapEntry};
use crate::preproc::macros::{apply_op, apply_ops, MacroOpV, MacroV};
use crate::preproc::options::{canonical_of, ExpansionV};
use crate::preproc::semantics::{line_at, quoted, UseV};
use crate::preproc::state::{find_added, needs_space, token_text, CondFrame, DiagV, OutPos, StateV};
use crate::preproc::substitute::{expansion, kind_at, CallV};
use crate::preproc::token::{KindV, TokenV};
use crate::text::{
    byte_len, byte_len_concat, decimal_of, sat_usize, utf8_width, with_name, with_names,
};
use vstd::prelude::*;

verus! {

/// Whether a list begins with another.
pub open spec fn extends<T>(longer: Seq<T>, s: Seq<T>) -> bool {
    s.len() <= longer.len() && longer.take(s.len() as int) == s
}

pub proof fn extends_refl<T>(s: Seq<T>)
    ensures
        extends(s, s),
{
    assert(s.take(s.len() as int) =~= s);
}

pub proof fn extends_trans<T>(a: Seq<T>, b: Seq<T>, c: Seq<T>)
    requires
        extends(b, a),
        extends(c, b),
    ensures
        extends(c, a),
{
    assert(c.take(a.len() as int) =~= b.take(a.len() as int));
}

proof fn extends_append<T>(s: Seq<T>, more: Seq<T>)
    ensures
        extends(s + more, s),
        (s + more).skip(s.len() as int) == more,
{
    assert((s + more).take(s.len() as int) =~= s);
    assert((s + more).skip(s.len() as int) =~= more);
}

/// The table after one list of directives and another is the table after both
/// in a row.
pub proof fn ops_in_a_row(table: Map<Seq<char>, MacroV>, a: Seq<MacroOpV>, b: Seq<MacroOpV>)
    ensures
        apply_ops(apply_ops(table, a), b) == apply_ops(table, a + b),
    decreases b.len(),
{
    if b.len() == 0 {
        assert(a + b =~= a);
    } else {
        ops_in_a_row(table, a, b.drop_last());
        assert((a + b).drop_last() =~= a + b.drop_last());
        assert((a + b).last() == b.last());
    }
}

/// Whether the directives that one log has and another does not lead from one
/// table to another.
pub open spec fn logged(
    before: Map<Seq<char>, MacroV>,
    log: Seq<MacroOpV>,
    after: Map<Seq<char>, MacroV>,
    longer: Seq<MacroOpV>,
) -> bool {
    extends(longer, log) && after == apply_ops(before, longer.skip(log.len() as int))
}

proof fn logged_refl(table: Map<Seq<char>, MacroV>, log: Seq<MacroOpV>)
    ensures
        logged(table, log, table, log),
{
    extends_refl(log);
    assert(log.skip(log.len() as int) =~= Seq::<MacroOpV>::empty());
}

pub proof fn logged_trans(
    t1: Map<Seq<char>, MacroV>,
    l1: Seq<MacroOpV>,
    t2: Map<Seq<char>, MacroV>,
    l2: Seq<MacroOpV>,
    t3: Map<Seq<char>, MacroV>,
    l3: Seq<MacroOpV>,
)
    requires
        logged(t1, l1, t2, l2),
        logged(t2, l2, t3, l3),
    ensures
        logged(t1, l1, t3, l3),
{
    extends_trans(l1, l2, l3);
    let a = l2.skip(l1.len() as int);
    let b = l3.skip(l2.len() as int);
    ops_in_a_row(t1, a, b);
    assert(l3.skip(l1.len() as int) =~= a + b) by {
        assert forall|i: int| 0 <= i < a.len() implies l3.skip(l1.len() as int)[i] == a[i] by {
            assert(l3.take(l2.len() as int)[l1.len() + i] == l2[l1.len() + i]);
        }
    }
}

/// Whether every level of `#if` is consistent: a branch is active only if the
/// text around it is and it has been taken, and the text around it is that of
/// the level outside.
pub open spec fn conds_sound(conds: Seq<CondFrame>) -> bool {
    forall|k: int|
        0 <= k < conds.len() ==> {
            &&& (#[trigger] conds[k]).active ==> conds[k].taken && conds[k].parent_active
            &&& conds[k].parent_active == (k == 0 || conds[k - 1].active)
        }
}

/// Whether the entries of a line map are in order, none beyond an offset.
pub open spec fn entries_sound(entries: Seq<LineMapEntry>, end: u32) -> bool {
    &&& forall|i: int, j: int|
        0 <= i <= j < entries.len() ==> (#[trigger] entries[i]).output_offset <= (
        #[trigger] entries[j]).output_offset
    &&& forall|i: int| 0 <= i < entries.len() ==> (#[trigger] entries[i]).output_offset <= end
}

/// What every state of a run keeps to. Where headers are not inlined, or are
/// replayed from a cache, nothing is said of the length of the output or of
/// the line map.
pub open spec fn sound(st: StateV) -> bool {
    &&& conds_sound(st.conds)
    &&& st.guard.no_duplicates()
    &&& st.cfg.inline ==> st.out_len == sat_usize(byte_len(st.out) as int)
    &&& st.cfg.inline && st.cfg.cache is None ==> entries_sound(
        st.line_map.entries,
        offset_u32(st.out_len),
    )
}

/// The macros that conditionals see.
pub open spec fn visible(st: StateV) -> Map<Seq<char>, MacroV> {
    st.macros.remove_keys(st.fallbacks)
}

/// Whether one state comes after another: no report and no file is forgotten,
/// inlined output is only added to, what has been defined and undefined in
/// between is what has been logged, and the expansions of the files that had
/// been met are what they were.
pub open spec fn later(a: StateV, b: StateV) -> bool {
    &&& b.cfg == a.cfg
    &&& forall|f: Seq<char>| #[trigger]
        a.guard.contains(f) ==> b.guard.contains(f) && b.expansion(f) == a.expansion(f)
    &&& extends(b.diags, a.diags)
    &&& a.tokens <= b.tokens
    &&& a.frames.len() <= b.frames.len()
    &&& b.fallbacks.subset_of(a.fallbacks)
    &&& a.cfg.inline ==> extends(b.out, a.out)
    &&& a.cfg.accumulate ==> logged(a.macros, a.shared_ops, b.macros, b.shared_ops) && logged(
        visible(a),
        a.shared_ops,
        visible(b),
        b.shared_ops,
    )
    &&& a.frames.len() > 0 ==> logged(a.macros, a.ops, b.macros, b.ops)
}

pub proof fn later_refl(a: StateV)
    ensures
        later(a, a),
{
    extends_refl(a.diags);
    extends_refl(a.out);
    logged_refl(a.macros, a.shared_ops);
    logged_refl(visible(a), a.shared_ops);
    logged_refl(a.macros, a.ops);
}

pub proof fn later_trans(a: StateV, b: StateV, c: StateV)
    requires
        later(a, b),
        later(b, c),
    ensures
        later(a, c),
{
    extends_trans(a.diags, b.diags, c.diags);
    if a.cfg.inline {
        extends_trans(a.out, b.out, c.out);
    }
    if a.cfg.accumulate {
        logged_trans(a.macros, a.shared_ops, b.macros, b.shared_ops, c.macros, c.shared_ops);
        logged_trans(visible(a), a.shared_ops, visible(b), b.shared_ops, visible(c), c.shared_ops);
    }
    if a.frames.len() > 0 {
        logged_trans(a.macros, a.ops, b.macros, b.ops, c.macros, c.ops);
    }
}

/// Two states with the same output and the same macros.
pub proof fn quietly(a: StateV, b: StateV)
    requires
        sound(a),
        b.cfg == a.cfg,
        b.macros == a.macros,
        b.fallbacks == a.fallbacks,
        b.added == a.added,
        b.out == a.out,
        b.out_len == a.out_len,
        b.line_map == a.line_map,
        b.shared_ops == a.shared_ops,
        b.ops == a.ops,
        conds_sound(b.conds),
        b.guard.no_duplicates(),
        forall|f: Seq<char>| #[trigger] a.guard.contains(f) ==> b.guard.contains(f),
        extends(b.diags, a.diags),
        a.tokens <= b.tokens,
        a.frames.len() <= b.frames.len(),
    ensures
        sound(b),
        later(a, b),
{
    extends_refl(a.out);
    logged_refl(a.macros, a.shared_ops);
    logged_refl(visible(a), a.shared_ops);
    logged_refl(a.macros, a.ops);
}

proof fn reported(a: StateV, b: StateV, d: DiagV)
    requires
        sound(a),
        b == (StateV { diags: a.diags.push(d), ..a }),
    ensures
        sound(b),
        later(a, b),
{
    assert(a.diags.push(d) =~= a.diags + seq![d]);
    extends_append(a.diags, seq![d]);
    quietly(a, b);
}

pub proof fn warned(a: StateV, line: u32, message: Seq<char>)
    requires
        sound(a),
    ensures
        sound(a.warn(line, message)),
        later(a, a.warn(line, message)),
{
    reported(a, a.warn(line, message), a.warn(line, message).diags.last());
}

proof fn failed(a: StateV, line: u32, message: Seq<char>)
    requires
        sound(a),
    ensures
        sound(a.error(line, message)),
        later(a, a.error(line, message)),
{
    reported(a, a.error(line, message), a.error(line, message).diags.last());
}

pub proof fn counts(a: StateV, line: u32)
    requires
        sound(a),
    ensures
        sound(a.count_token(line).0),
        later(a, a.count_token(line).0),
        a.count_token(line).0.out == a.out,
        a.count_token(line).0.macros == a.macros,
        a.count_token(line).0.conds == a.conds,
{
    let counted = StateV {
        tokens: if a.tokens == u64::MAX {
            u64::MAX
        } else {
            (a.tokens + 1) as u64
        },
        ..a
    };
    extends_refl(a.diags);
    quietly(a, counted);
    let budget = "preprocessed token budget exceeded ("@ + decimal_of(a.cfg.max_tokens as nat)
        + ")"@;
    let cap = "preprocessed output exceeded "@ + decimal_of(a.cfg.max_bytes as nat) + " bytes"@;
    failed(counted, line, budget);
    failed(counted, line, cap);
    later_trans(a, counted, counted.error(line, budget));
    later_trans(a, counted, counted.error(line, cap));
}

/// Adding to what does not fit changes nothing.
proof fn lengths_add(a: Seq<char>, b: Seq<char>, n: usize)
    requires
        n == sat_usize(byte_len(a) as int),
    ensures
        sat_usize(n + byte_len(b)) == sat_usize(byte_len(a + b) as int),
{
    byte_len_concat(a, b);
}

proof fn emits(a: StateV, text: Seq<char>, line: u32, col: u32)
    requires
        sound(a),
    ensures
        sound(a.emit_str(text, line, col)),
        later(a, a.emit_str(text, line, col)),
{
    let b = a.emit_str(text, line, col);
    extends_refl(a.diags);
    extends_append(a.out, text);
    logged_refl(a.macros, a.shared_ops);
    logged_refl(visible(a), a.shared_ops);
    logged_refl(a.macros, a.ops);
    if a.cfg.inline {
        lengths_add(a.out, text, a.out_len);
        if a.cfg.cache is None {
            let at = offset_u32(a.out_len);
            let e = a.line_map.entries;
            let f = b.line_map.entries;
            if a.cfg.track {
                assert(f =~= e.push(f.last()));
                assert(f.last().output_offset == at);
            } else {
                assert(f == e);
            }
            assert(at <= offset_u32(b.out_len));
            assert forall|i: int, j: int| 0 <= i <= j < f.len() implies (
            #[trigger] f[i]).output_offset <= (#[trigger] f[j]).output_offset by {
                if j < e.len() {
                    assert(f[i] == e[i] && f[j] == e[j]);
                } else if i < e.len() {
                    assert(f[i] == e[i]);
                }
            }
            assert forall|i: int| 0 <= i < f.len() implies (#[trigger] f[i]).output_offset
                <= offset_u32(b.out_len) by {
                if i < e.len() {
                    assert(f[i] == e[i]);
                }
            }
        }
    }
}

proof fn emits_space(a: StateV)
    requires
        sound(a),
    ensures
        sound(a.emit_space()),
        later(a, a.emit_space()),
{
    let b = a.emit_space();
    extends_refl(a.diags);
    extends_append(a.out, seq![' ']);
    assert(a.out.push(' ') =~= a.out + seq![' ']);
    logged_refl(a.macros, a.shared_ops);
    logged_refl(visible(a), a.shared_ops);
    logged_refl(a.macros, a.ops);
    if a.cfg.inline {
        assert(b.out.drop_last() =~= a.out);
        assert(utf8_width(' ') == 1);
        assert(byte_len(b.out) == byte_len(a.out) + 1);
    }
}

proof fn emits_token(a: StateV, tok: TokenV)
    requires
        sound(a),
    ensures
        sound(a.emit_token(tok)),
        later(a, a.emit_token(tok)),
{
    later_refl(a);
    if tok.kind != KindV::Eof {
        let spaced = if tok.kind != KindV::Newline && needs_space(a.out, tok.kind) {
            emits_space(a);
            a.emit_space()
        } else {
            a
        };
        emits(spaced, token_text(tok.kind), tok.line, tok.col);
        later_trans(a, spaced, a.emit_token(tok));
    }
}

pub proof fn runs_op(a: StateV, op: MacroOpV)
    requires
        sound(a),
    ensures
        sound(a.run_op(op)),
        later(a, a.run_op(op)),
{
    let b = a.run_op(op);
    extends_refl(a.diags);
    extends_refl(a.out);
    let one = seq![op];
    assert(one.drop_last() =~= Seq::<MacroOpV>::empty());
    assert(one.last() == op);
    reveal_with_fuel(apply_ops, 2);
    assert(apply_ops(a.macros, one) == apply_op(a.macros, op));
    assert(visible(b) =~= apply_op(visible(a), op));
    assert(apply_ops(visible(a), one) == apply_op(visible(a), op));
    assert(a.ops.push(op) =~= a.ops + one);
    assert(a.shared_ops.push(op) =~= a.shared_ops + one);
    extends_append(a.ops, one);
    extends_append(a.shared_ops, one);
}

pub proof fn runs_ops(a: StateV, ops: Seq<MacroOpV>)
    requires
        sound(a),
    ensures
        sound(a.run_ops(ops)),
        later(a, a.run_ops(ops)),
        a.run_ops(ops).macros == apply_ops(a.macros, ops),
        a.run_ops(ops).out == a.out,
        a.run_ops(ops).out_len == a.out_len,
        a.run_ops(ops).line_map == a.line_map,
        a.run_ops(ops).conds == a.conds,
        a.run_ops(ops).guard == a.guard,
        a.run_ops(ops).frames == a.frames,
    decreases ops.len(),
{
    if ops.len() == 0 {
        later_refl(a);
    } else {
        runs_ops(a, ops.drop_last());
        let s = a.run_ops(ops.drop_last());
        runs_op(s, ops.last());
        later_trans(a, s, s.run_op(ops.last()));
    }
}

proof fn goes_too_deep(a: StateV, line: u32)
    requires
        sound(a),
    ensures
        sound(a.too_deep(line)),
        later(a, a.too_deep(line)),
{
    later_refl(a);
    if !a.warned {
        let message = "macro expansion depth exceeded (256); skipping further expansion"@;
        warned(a, line, message);
        let s = a.warn(line, message);
        extends_refl(s.diags);
        quietly(s, a.too_deep(line));
        later_trans(a, s, a.too_deep(line));
    }
}

/// Scanning a list of tokens for macros.
proof fn expands(a: StateV, ts: Seq<TokenV>, i: int, depth: int)
    requires
        sound(a),
    ensures
        sound(a.expand(ts, i, depth).0),
        later(a, a.expand(ts, i, depth).0),
    decreases 256 - depth, ts.len() - i,
{
    later_refl(a);
    if i < 0 || i >= ts.len() {
    } else {
        let (st, counted) = a.count_token(ts[i].line);
        counts(a, ts[i].line);
        let end = a.expand(ts, i, depth).0;
        if counted is Err {
        } else if ts[i].kind == KindV::Eof {
        } else if !st.is_active() {
            expands(st, ts, i + 1, depth);
            later_trans(a, st, end);
        } else if ts[i].kind == KindV::Hash {
            match kind_at(ts, i + 1) {
                Some(KindV::Identifier(name)) => {
                    emits(st, quoted(name), ts[i + 1].line, ts[i + 1].col);
                    let s = st.emit_str(quoted(name), ts[i + 1].line, ts[i + 1].col);
                    expands(s, ts, i + 2, depth);
                    later_trans(a, st, s);
                    later_trans(a, s, end);
                },
                _ => {
                    emits_token(st, ts[i]);
                    let s = st.emit_token(ts[i]);
                    expands(s, ts, i + 1, depth);
                    later_trans(a, st, s);
                    later_trans(a, s, end);
                },
            }
        } else {
            match st.use_at(ts, i) {
                UseV::Nothing => {
                    emits_token(st, ts[i]);
                    let s = st.emit_token(ts[i]);
                    expands(s, ts, i + 1, depth);
                    later_trans(a, st, s);
                    later_trans(a, s, end);
                },
                UseV::Object { replacement } => {
                    if depth >= 256 {
                        goes_too_deep(st, ts[i].line);
                        let s1 = st.too_deep(ts[i].line);
                        emits_token(s1, ts[i]);
                        let s = s1.emit_token(ts[i]);
                        expands(s, ts, i + 1, depth);
                        later_trans(a, st, s1);
                        later_trans(a, s1, s);
                        later_trans(a, s, end);
                    } else {
                        let (inner, r) = st.expand(replacement, 0, depth + 1);
                        expands(st, replacement, 0, depth + 1);
                        later_trans(a, st, inner);
                        if r is Ok {
                            expands(inner, ts, i + 1, depth);
                            later_trans(a, inner, end);
                        }
                    }
                },
                UseV::Function { name, params, body, variadic } => {
                    if depth >= 256 {
                        goes_too_deep(st, ts[i].line);
                        let s1 = st.too_deep(ts[i].line);
                        emits_token(s1, ts[i]);
                        let s = s1.emit_token(ts[i]);
                        expands(s, ts, i + 1, depth);
                        later_trans(a, st, s1);
                        later_trans(a, s1, s);
                        later_trans(a, s, end);
                    } else {
                        match macro_args(ts, i + 1) {
                            ArgsV::Unterminated { at } => {
                                failed(st, line_at(ts, at), "unterminated macro argument list"@);
                                later_trans(a, st, end);
                            },
                            ArgsV::Good { args, end: stop } => {
                                let call = expansion(
                                    CallV { name, origin: ts[i], body, params, args, variadic },
                                );
                                let (inner, r) = st.expand(call, 0, depth + 1);
                                expands(st, call, 0, depth + 1);
                                later_trans(a, st, inner);
                                if r is Err || stop <= i || stop > ts.len() {
                                } else {
                                    expands(inner, ts, stop, depth);
                                    later_trans(a, inner, end);
                                }
                            },
                        }
                    }
                },
            }
        }
    }
}

/// Expanding a line that names a header.
proof fn expands_operand(a: StateV, ts: Seq<TokenV>, i: int, out: Seq<TokenV>, depth: int)
    requires
        sound(a),
    ensures
        sound(a.include_operand(ts, i, out, depth).0),
        later(a, a.include_operand(ts, i, out, depth).0),
        a.include_operand(ts, i, out, depth).0.out == a.out,
        a.include_operand(ts, i, out, depth).0.out_len == a.out_len,
    decreases 256 - depth, ts.len() - i,
{
    later_refl(a);
    if i < 0 || i >= ts.len() {
    } else if ts[i].kind == KindV::Newline || ts[i].kind == KindV::Eof {
        expands_operand(a, ts, i + 1, out, depth);
    } else {
        let end = a.include_operand(ts, i, out, depth).0;
        match a.use_at(ts, i) {
            UseV::Nothing => {
                expands_operand(a, ts, i + 1, out.push(ts[i]), depth);
            },
            UseV::Object { replacement } => {
                if depth >= 256 {
                    goes_too_deep(a, ts[i].line);
                    let s = a.too_deep(ts[i].line);
                    expands_operand(s, ts, i + 1, out.push(ts[i]), depth);
                    later_trans(a, s, end);
                } else {
                    let (inner, r) = a.include_operand(replacement, 0, Seq::empty(), depth + 1);
                    expands_operand(a, replacement, 0, Seq::empty(), depth + 1);
                    match r {
                        Err(e) => {},
                        Ok(nested) => {
                            expands_operand(inner, ts, i + 1, out + nested, depth);
                            later_trans(a, inner, end);
                        },
                    }
                }
            },
            UseV::Function { name, params, body, variadic } => {
                if depth >= 256 {
                    goes_too_deep(a, ts[i].line);
                    let s = a.too_deep(ts[i].line);
                    expands_operand(s, ts, i + 1, out.push(ts[i]), depth);
                    later_trans(a, s, end);
                } else {
                    match macro_args(ts, i + 1) {
                        ArgsV::Unterminated { at } => {
                            failed(a, line_at(ts, at), "unterminated macro argument list"@);
                        },
                        ArgsV::Good { args, end: stop } => {
                            let call = expansion(
                                CallV { name, origin: ts[i], body, params, args, variadic },
                            );
                            let (inner, r) = a.include_operand(call, 0, Seq::empty(), depth + 1);
                            expands_operand(a, call, 0, Seq::empty(), depth + 1);
                            match r {
                                Err(e) => {},
                                Ok(nested) => {
                                    if end != inner && !(stop <= i || stop > ts.len()) {
                                        expands_operand(inner, ts, stop, out + nested, depth);
                                        later_trans(a, inner, end);
                                    } else if !(stop <= i || stop > ts.len()) {
                                        expands_operand(inner, ts, stop, out + nested, depth);
                                    }
                                },
                            }
                        },
                    }
                }
            },
        }
    }
}

pub proof fn notes_missing(a: StateV, path: Seq<char>)
    requires
        sound(a),
    ensures
        sound(a.note_missing(path)),
        later(a, a.note_missing(path)),
{
    extends_refl(a.diags);
    quietly(a, a.note_missing(path));
}

proof fn notes_skip(a: StateV, at: OutPos, path: Seq<char>)
    requires
        sound(a),
    ensures
        sound(a.note_skip(at, path)),
        later(a, a.note_skip(at, path)),
        a.note_skip(at, path).frames.len() == a.frames.len(),
{
    extends_refl(a.diags);
    quietly(a, a.note_skip(at, path));
}

proof fn searches(a: StateV, path: Seq<char>, k: int)
    requires
        sound(a),
    ensures
        sound(a.search(path, k).0),
        later(a, a.search(path, k).0),
    decreases a.cfg.include_paths.len() - k,
{
    later_refl(a);
    if k < 0 || k >= a.cfg.include_paths.len() {
    } else {
        let p = joined(a.cfg.include_paths[k], path);
        if a.cfg.tree.contains_key(p) && a.cfg.tree[p].is_file {
        } else {
            notes_missing(a, p);
            let s = a.note_missing(p);
            searches(s, path, k + 1);
            later_trans(a, s, s.search(path, k + 1).0);
        }
    }
}

proof fn resolves(a: StateV, path: Seq<char>)
    requires
        sound(a),
    ensures
        sound(a.resolve(path).0),
        later(a, a.resolve(path).0),
{
    later_refl(a);
    let candidate = if (path.len() > 0 && path[0] == '/') || path.contains('\\') {
        path
    } else {
        joined(dir_of(a.file), path)
    };
    if !a.cfg.tree.contains_key(candidate) {
        notes_missing(a, candidate);
        let s = a.note_missing(candidate);
        searches(s, path, 0);
        later_trans(a, s, s.search(path, 0).0);
    }
}

proof fn names_header(a: StateV, ts: Seq<TokenV>, i: int, depth: int)
    requires
        sound(a),
    ensures
        sound(a.include_name(ts, i, depth).0),
        later(a, a.include_name(ts, i, depth).0),
{
    later_refl(a);
    match header_name(ts, i) {
        Some(p) => {},
        None => {
            let line = ts.subrange(i, line_end(ts, i));
            expands_operand(a, line, 0, Seq::empty(), depth);
            let (st, r) = a.include_operand(line, 0, Seq::empty(), depth);
            let message = "expected string or <...> after #include"@;
            failed(st, line_at(ts, i), message);
            later_trans(a, st, st.error(line_at(ts, i), message));
        },
    }
}

proof fn pushes_cond(a: StateV, cond: bool)
    requires
        sound(a),
    ensures
        sound(a.push_cond(cond)),
        later(a, a.push_cond(cond)),
{
    let b = a.push_cond(cond);
    extends_refl(a.diags);
    assert(conds_sound(b.conds)) by {
        assert forall|k: int| 0 <= k < b.conds.len() implies {
            &&& (#[trigger] b.conds[k]).active ==> b.conds[k].taken && b.conds[k].parent_active
            &&& b.conds[k].parent_active == (k == 0 || b.conds[k - 1].active)
        } by {
            if k < a.conds.len() {
                assert(b.conds[k] == a.conds[k]);
                if k > 0 {
                    assert(b.conds[k - 1] == a.conds[k - 1]);
                }
            } else if k > 0 {
                assert(b.conds[k - 1] == a.conds[k - 1]);
            }
        }
    }
    quietly(a, b);
}

proof fn changes_cond(a: StateV, frame: CondFrame)
    requires
        sound(a),
        a.conds.len() > 0,
        frame.parent_active == a.conds.last().parent_active,
        frame.active ==> frame.taken && frame.parent_active,
    ensures
        sound(a.with_cond(frame)),
        later(a, a.with_cond(frame)),
{
    let b = a.with_cond(frame);
    extends_refl(a.diags);
    assert(conds_sound(b.conds)) by {
        assert forall|k: int| 0 <= k < b.conds.len() implies {
            &&& (#[trigger] b.conds[k]).active ==> b.conds[k].taken && b.conds[k].parent_active
            &&& b.conds[k].parent_active == (k == 0 || b.conds[k - 1].active)
        } by {
            if k < a.conds.len() - 1 {
                assert(b.conds[k] == a.conds[k]);
            } else {
                assert(a.conds[k].parent_active == (k == 0 || a.conds[k - 1].active));
            }
            if k > 0 {
                assert(b.conds[k - 1] == a.conds[k - 1]);
            }
        }
    }
    quietly(a, b);
}

proof fn evaluates(a: StateV, ts: Seq<TokenV>, i: int)
    requires
        sound(a),
    ensures
        sound(a.condition(ts, i).0),
        later(a, a.condition(ts, i).0),
        a.condition(ts, i).0.conds == a.conds,
{
    later_refl(a);
    match a.condition_tokens(
        long_line(ts, i),
        0,
        Seq::empty(),
        0,
    ) {
        Ok(expanded) => {},
        Err(line) => {
            warned(
                a,
                line,
                "macro expansion budget exceeded in #if condition; treating as false"@,
            );
        },
    }
}

proof fn lacks_name(a: StateV, ts: Seq<TokenV>, i: int)
    requires
        sound(a),
    ensures
        sound(a.no_identifier(ts, i).0),
        later(a, a.no_identifier(ts, i).0),
{
    failed(
        a,
        line_at(ts, skip_newlines(ts, i)),
        "expected identifier in directive"@,
    );
}

/// The directives that take in no file.
proof fn directs(a: StateV, ts: Seq<TokenV>, i: int)
    requires
        sound(a),
    ensures
        sound(a.define(ts, i).0),
        later(a, a.define(ts, i).0),
        sound(a.undef(ts, i).0),
        later(a, a.undef(ts, i).0),
        sound(a.ifdef(ts, i, true).0),
        later(a, a.ifdef(ts, i, true).0),
        sound(a.ifdef(ts, i, false).0),
        later(a, a.ifdef(ts, i, false).0),
        sound(a.if_(ts, i).0),
        later(a, a.if_(ts, i).0),
        sound(a.elif(ts, i).0),
        later(a, a.elif(ts, i).0),
        sound(a.else_(ts, i).0),
        later(a, a.else_(ts, i).0),
        sound(a.endif(ts, i).0),
        later(a, a.endif(ts, i).0),
{
    later_refl(a);
    defines(a, ts, i);
    undefines(a, ts, i);
    tests_defined(a, ts, i, true);
    tests_defined(a, ts, i, false);
    opens_if(a, ts, i);
    opens_elif(a, ts, i);
    if a.conds.len() == 0 {
        failed(a, line_at(ts, i - 1), "#else without #if"@);
        failed(a, line_at(ts, i - 1), "#endif without #if"@);
    } else {
        let f = a.conds.last();
        changes_cond(
            a,
            CondFrame {
                active: f.parent_active && !f.taken,
                taken: true,
                else_seen: true,
                ..f
            },
        );
        let b = a.endif(ts, i).0;
        extends_refl(a.diags);
        assert(conds_sound(b.conds)) by {
            assert forall|k: int| 0 <= k < b.conds.len() implies {
                &&& (#[trigger] b.conds[k]).active ==> b.conds[k].taken && b.conds[k].parent_active
                &&& b.conds[k].parent_active == (k == 0 || b.conds[k - 1].active)
            } by {
                assert(b.conds[k] == a.conds[k]);
                if k > 0 {
                    assert(b.conds[k - 1] == a.conds[k - 1]);
                }
            }
        }
        quietly(a, b);
    }
}

proof fn defines(a: StateV, ts: Seq<TokenV>, i: int)
    requires
        sound(a),
    ensures
        sound(a.define(ts, i).0),
        later(a, a.define(ts, i).0),
{
    let j = skip_newlines(ts, i);
    let b = a.define(ts, i).0;
    lacks_name(a, ts, i);
    match kind_at(ts, j) {
        Some(KindV::Identifier(name)) => {
            match list_open(ts, j) {
                Some(open) => {
                    match params_from(ts, open + 1, Seq::empty()) {
                        ParamsV::Bad { at } => {
                            warned(
                                a,
                                line_at(ts, at),
                                "unterminated macro parameter list; definition ignored"@,
                            );
                            warned(
                                a,
                                line_at(ts, at),
                                "expected , or ) in macro parameters; definition ignored"@,
                            );
                        },
                        ParamsV::Good { params, variadic, end } => {
                            let body = body_tokens(ts, end);
                            let replacement = if variadic && params.len() > 0 && params.last()
                                != "__VA_ARGS__"@ {
                                aliased(body, params.last())
                            } else {
                                body
                            };
                            runs_op(
                                a,
                                MacroOpV::Define(
                                    name,
                                    MacroV::Function { params, replacement, variadic },
                                ),
                            );
                        },
                    }
                },
                None => {
                    runs_op(
                        a,
                        MacroOpV::Define(
                            name,
                            MacroV::Object {
                                replacement: body_tokens(ts, j + 1),
                            },
                        ),
                    );
                },
            }
        },
        _ => {},
    }
}

proof fn undefines(a: StateV, ts: Seq<TokenV>, i: int)
    requires
        sound(a),
    ensures
        sound(a.undef(ts, i).0),
        later(a, a.undef(ts, i).0),
{
    lacks_name(a, ts, i);
    match kind_at(ts, skip_newlines(ts, i)) {
        Some(KindV::Identifier(name)) => {
            runs_op(a, MacroOpV::Undef(name));
        },
        _ => {},
    }
}

proof fn tests_defined(a: StateV, ts: Seq<TokenV>, i: int, wanted: bool)
    requires
        sound(a),
    ensures
        sound(a.ifdef(ts, i, wanted).0),
        later(a, a.ifdef(ts, i, wanted).0),
{
    pushes_cond(a, false);
    lacks_name(a, ts, i);
    match kind_at(ts, skip_newlines(ts, i)) {
        Some(KindV::Identifier(name)) => {
            pushes_cond(a, a.is_defined(name) == wanted);
        },
        _ => {},
    }
}

proof fn opens_if(a: StateV, ts: Seq<TokenV>, i: int)
    requires
        sound(a),
    ensures
        sound(a.if_(ts, i).0),
        later(a, a.if_(ts, i).0),
{
    if a.is_active() {
        evaluates(a, ts, i);
        let (st, holds) = a.condition(ts, i);
        pushes_cond(st, holds);
        later_trans(a, st, st.push_cond(holds));
    } else {
        pushes_cond(a, false);
    }
}

proof fn opens_elif(a: StateV, ts: Seq<TokenV>, i: int)
    requires
        sound(a),
    ensures
        sound(a.elif(ts, i).0),
        later(a, a.elif(ts, i).0),
{
    later_refl(a);
    if a.conds.len() == 0 {
        failed(a, line_at(ts, i - 1), "#elif without #if"@);
    } else {
        let f = a.conds.last();
        let end = long_line_end(ts, i);
        let (evaluated, holds) = if f.parent_active && !f.taken && !f.else_seen {
            evaluates(a, ts, i);
            a.condition(ts, i)
        } else {
            (a, false)
        };
        let st = if f.else_seen {
            warned(evaluated, line_at(ts, end - 1), "#elif after #else; branch ignored"@);
            evaluated.warn(line_at(ts, end - 1), "#elif after #else; branch ignored"@)
        } else {
            later_refl(evaluated);
            evaluated
        };
        later_trans(a, evaluated, st);
        let active = f.parent_active && !f.taken && holds;
        let frame = CondFrame { active, taken: f.taken || active, ..f };
        changes_cond(st, frame);
        later_trans(a, st, st.with_cond(frame));
    }
}

/// A header that is replayed.
pub proof fn replays(a: StateV, canonical: Seq<char>, entry: ExpansionV)
    requires
        sound(a),
        a.cfg.cache is Some,
    ensures
        sound(a.replay(canonical, entry)),
        later(a, a.replay(canonical, entry)),
{
    let b = a.replay(canonical, entry);
    extends_refl(a.diags);
    extends_refl(a.out);
    if !a.cfg.inline {
        runs_ops(a, entry.ops);
        let ran = a.run_ops(entry.ops);
        names_grow(ran.guard, canonical, entry.files);
        assert(later(ran, b)) by {
            later_refl(ran);
        }
        later_trans(a, ran, b);
    } else if sat_usize(a.out_len + byte_len(entry.text)) > a.cfg.max_bytes {
        let message = "skipping cached include "@ + canonical + " (would exceed "@ + decimal_of(
            a.cfg.max_bytes as nat,
        ) + "-byte output cap)"@;
        warned(a, 1, message);
        let w = a.warn(1, message);
        name_grows(w.guard, canonical);
        extends_refl(w.diags);
        quietly(w, b);
        later_trans(a, w, b);
    } else {
        let s = StateV {
            out: a.out + entry.text,
            out_len: sat_usize(a.out_len + byte_len(entry.text)),
            ..a
        };
        lengths_add(a.out, entry.text, a.out_len);
        extends_append(a.out, entry.text);
        logged_refl(a.macros, a.shared_ops);
        logged_refl(visible(a), a.shared_ops);
    logged_refl(visible(a), a.shared_ops);
        logged_refl(a.macros, a.ops);
        assert(sound(s));
        assert(later(a, s));
        runs_ops(s, entry.ops);
        let ran = s.run_ops(entry.ops);
        files_grow(ran.guard, entry.files);
        assert(later(ran, b)) by {
            later_refl(ran);
        }
        later_trans(a, s, ran);
        later_trans(a, ran, b);
    }
}

pub proof fn name_grows(names: Seq<Seq<char>>, name: Seq<char>)
    ensures
        forall|x: Seq<char>| #[trigger] names.contains(x) ==> with_name(names, name).contains(x),
        with_name(names, name).contains(name),
        names.no_duplicates() ==> with_name(names, name).no_duplicates(),
{
    assert forall|x: Seq<char>| #[trigger] names.contains(x) implies with_name(
        names,
        name,
    ).contains(x) by {
        let k = choose|k: int| 0 <= k < names.len() && names[k] == x;
        assert(with_name(names, name)[k] == x);
    }
    if !names.contains(name) {
        assert(with_name(names, name)[names.len() as int] == name);
    }
}

proof fn files_grow(names: Seq<Seq<char>>, more: Seq<Seq<char>>)
    ensures
        forall|x: Seq<char>| #[trigger] names.contains(x) ==> with_names(names, more).contains(x),
        names.no_duplicates() ==> with_names(names, more).no_duplicates(),
    decreases more.len(),
{
    if more.len() > 0 {
        files_grow(names, more.drop_last());
        name_grows(with_names(names, more.drop_last()), more.last());
        assert forall|x: Seq<char>| #[trigger] names.contains(x) implies with_names(
            names,
            more,
        ).contains(x) by {
            assert(with_names(names, more.drop_last()).contains(x));
        }
    }
}

proof fn names_grow(names: Seq<Seq<char>>, name: Seq<char>, more: Seq<Seq<char>>)
    ensures
        forall|x: Seq<char>| #[trigger]
            names.contains(x) ==> with_names(with_name(names, name), more).contains(x),
        names.no_duplicates() ==> with_names(with_name(names, name), more).no_duplicates(),
{
    name_grows(names, name);
    files_grow(with_name(names, name), more);
    assert forall|x: Seq<char>| #[trigger] names.contains(x) implies with_names(
        with_name(names, name),
        more,
    ).contains(x) by {
        assert(with_name(names, name).contains(x));
    }
}

/// Whether a header is kept for the cache once it has been read.
pub open spec fn is_kept(st: StateV, canonical: Seq<char>) -> bool {
    st.cfg.cache is Some && !st.cfg.frozen && is_header_path(canonical)
}

/// A header that has been read: `a` is the state before it, `b` the one after
/// its last token.
pub proof fn closes(
    a: StateV,
    b: StateV,
    path: Seq<char>,
    canonical: Seq<char>,
    content: Seq<char>,
)
    requires
        sound(b),
        b.cfg == a.cfg,
        !a.guard.contains(canonical),
        forall|f: Seq<char>| #[trigger]
            a.guard.contains(f) ==> b.guard.contains(f) && b.expansion(f) == a.expansion(f),
        extends(b.diags, a.diags),
        a.tokens <= b.tokens,
        b.fallbacks.subset_of(a.fallbacks),
        a.cfg.inline ==> extends(b.out, a.out),
        a.cfg.accumulate ==> logged(a.macros, a.shared_ops, b.macros, b.shared_ops) && logged(
            visible(a),
            a.shared_ops,
            visible(b),
            b.shared_ops,
        ),
        is_kept(a, canonical) ==> a.frames.len() + 1 <= b.frames.len(),
        !is_kept(a, canonical) ==> a.frames.len() <= b.frames.len(),
        a.frames.len() > 0 ==> logged(a.macros, a.ops, b.macros, b.ops),
    ensures
        ({
            let c = b.close_header(
                path,
                canonical,
                content,
                a.pos(),
                a.guard.len() as int,
                a.ops.len() as int,
            );
            sound(c) && later(a, c) && c.macros == b.macros && c.conds == b.conds
        }),
{
    let c = b.close_header(
        path,
        canonical,
        content,
        a.pos(),
        a.guard.len() as int,
        a.ops.len() as int,
    );
    extends_refl(b.diags);
    assert(c.macros == b.macros);
    assert(c.fallbacks == b.fallbacks);
    assert(c.out == b.out && c.out_len == b.out_len && c.line_map == b.line_map);
    assert(c.conds == b.conds && c.guard == b.guard && c.shared_ops == b.shared_ops);
    assert(extends(c.diags, b.diags)) by {
        if c.diags != b.diags {
            assert(c.diags =~= b.diags + seq![c.diags.last()]);
            extends_append(b.diags, seq![c.diags.last()]);
        }
    }
    extends_trans(a.diags, b.diags, c.diags);
    assert forall|f: Seq<char>| #[trigger] a.guard.contains(f) implies c.expansion(f)
        == a.expansion(f) by {
        if c.added != b.added {
            found_before(b.added, c.added.last(), f, 0);
        }
    }
}

/// An expansion that is added changes nothing for the other paths.
pub proof fn found_before(
    added: Seq<(Seq<char>, ExpansionV)>,
    last: (Seq<char>, ExpansionV),
    path: Seq<char>,
    i: int,
)
    requires
        0 <= i <= added.len(),
    ensures
        last.0 != path ==> find_added(added.push(last), path, i) == find_added(added, path, i),
        last.0 == path && find_added(added, path, i) is None ==> find_added(
            added.push(last),
            path,
            i,
        ) == Some(last.1),
    decreases added.len() - i,
{
    let all = added.push(last);
    if i < added.len() {
        assert(all[i] == added[i]);
        found_before(added, last, path, i + 1);
    } else {
        assert(find_added(all, path, i + 1) is None);
    }
}

/// A file that is taken in.
pub proof fn takes_file(a: StateV, path: Seq<char>, room: nat, depth: int)
    requires
        sound(a),
    ensures
        sound(a.file(path, room, depth).0),
        later(a, a.file(path, room, depth).0),
    decreases room, 256 - depth, 0int, 1int,
{
    let st = a.note_missing(path);
    notes_missing(a, path);
    let canonical = canonical_of(a.cfg.tree, path);
    let end = a.file(path, room, depth).0;
    later_refl(st);
    if st.guard.contains(canonical) {
        notes_skip(st, st.pos(), canonical);
        later_trans(a, st, end);
    } else if room == 0 {
        warned(
            st,
            1,
            "include depth exceeded ("@ + decimal_of(a.cfg.max_depth as nat) + "); skipping "@
                + path,
        );
        later_trans(a, st, end);
    } else if st.expansion(canonical) is Some {
        replays(st, canonical, st.expansion(canonical)->0);
        later_trans(a, st, end);
    } else {
        let opened = StateV {
            guard: with_name(st.guard, canonical),
            frames: if st.cfg.cache is Some && is_header_path(canonical) && !st.cfg.frozen {
                st.frames.push(Seq::empty())
            } else {
                st.frames
            },
            ..st
        };
        name_grows(st.guard, canonical);
        extends_refl(st.diags);
        quietly(st, opened);
        later_trans(a, st, opened);
        let content: Result<Seq<char>, Seq<char>> = if st.cfg.tree.contains_key(path) {
            st.cfg.tree[path].content
        } else {
            Err("file not found"@)
        };
        match content {
            Err(reason) => {},
            Ok(text) => {
                let entered = StateV { file: path, ..opened };
                quietly(opened, entered);
                later_trans(st, opened, entered);
                let (read, r) = entered.tokens(lex(text), 0, (room - 1) as nat, depth);
                takes_tokens(entered, lex(text), 0, (room - 1) as nat, depth);
                later_trans(st, entered, read);
                let noted = match r {
                    Err(e) => {
                        let message = "preprocess stopped in "@ + read.file + ": "@ + e.text();
                        warned(read, 1, message);
                        read.warn(1, message)
                    },
                    Ok(_) => {
                        later_refl(read);
                        read
                    },
                };
                later_trans(st, read, noted);
                later_trans(entered, read, noted);
                let back = StateV { file: st.file, ..noted };
                extends_refl(noted.diags);
                quietly(noted, back);
                later_trans(st, noted, back);
                later_trans(entered, noted, back);
                closes(st, back, path, canonical, text);
                later_trans(a, st, end);
            },
        }
    }
}

proof fn takes_header(a: StateV, ts: Seq<TokenV>, i: int, room: nat, depth: int)
    requires
        sound(a),
    ensures
        sound(a.include_(ts, i, room, depth).0),
        later(a, a.include_(ts, i, room, depth).0),
    decreases room, 256 - depth, ts.len() - i, 2int,
{
    let j = skip_newlines(ts, i);
    let (named, name) = a.include_name(ts, j, depth);
    names_header(a, ts, j, depth);
    let end = a.include_(ts, i, room, depth).0;
    match name {
        Err(e) => {},
        Ok(path) => {
            let (st, found) = named.resolve(path);
            resolves(named, path);
            later_trans(a, named, st);
            match found {
                None => {
                    warned(st, line_at(ts, j), "include file not found, skipping: "@ + path);
                    later_trans(a, st, end);
                },
                Some(target) => {
                    let live = st.pos();
                    let (read, r) = if i <= ts.len() {
                        takes_file(st, target, room, depth);
                        st.file(target, room, depth)
                    } else {
                        later_refl(st);
                        (st, Ok(()))
                    };
                    later_trans(a, st, read);
                    let noted = match r {
                        Err(e) => {
                            let message = "include preprocessing failed for "@ + path + ": "@
                                + e.text();
                            warned(read, line_at(ts, j), message);
                            read.warn(line_at(ts, j), message)
                        },
                        Ok(_) => {
                            later_refl(read);
                            read
                        },
                    };
                    later_trans(a, read, noted);
                    if !noted.cfg.inline && !noted.cfg.frozen && is_header_path(target) {
                        let cut = noted.truncate(live);
                        assert(sound(cut));
                        assert(later(noted, cut)) by {
                            later_refl(noted);
                        }
                        notes_skip(cut, live, canonical_of(noted.cfg.tree, target));
                        later_trans(a, noted, cut);
                        later_trans(a, cut, end);
                    }
                },
            }
        },
    }
}

proof fn takes_directive(a: StateV, ts: Seq<TokenV>, start: int, room: nat, depth: int)
    requires
        sound(a),
    ensures
        sound(a.directive(ts, start, room, depth).0),
        later(a, a.directive(ts, start, room, depth).0),
    decreases room, 256 - depth, ts.len() - start, 3int,
{
    let at = skip_newlines(ts, start + 1);
    later_refl(a);
    if at < start || at >= ts.len() {
    } else {
        match ts[at].kind {
            KindV::Identifier(name) => {
                let i = at + 1;
                directs(a, ts, i);
                warned(a, ts[at].line, "unknown directive #"@ + name);
                if name == "include"@ && a.is_active() {
                    takes_header(a, ts, i, room, depth);
                }
            },
            _ => {
                failed(a, ts[at].line, "expected directive name after #"@);
            },
        }
    }
}

/// The tokens of a text.
pub proof fn takes_tokens(a: StateV, ts: Seq<TokenV>, i: int, room: nat, depth: int)
    requires
        sound(a),
    ensures
        sound(a.tokens(ts, i, room, depth).0),
        later(a, a.tokens(ts, i, room, depth).0),
    decreases room, 256 - depth, ts.len() - i, 4int,
{
    later_refl(a);
    if i < 0 || i >= ts.len() {
    } else {
        let (st, counted) = a.count_token(ts[i].line);
        counts(a, ts[i].line);
        let end = a.tokens(ts, i, room, depth).0;
        if counted is Err {
        } else if ts[i].kind == KindV::Eof {
        } else if ts[i].kind == KindV::Hash && begins_line(ts, i) {
            let (after, r) = st.directive(ts, i, room, depth);
            takes_directive(st, ts, i, room, depth);
            later_trans(a, st, after);
            match r {
                Err(e) => {},
                Ok(next) => {
                    if i < next <= ts.len() {
                        takes_tokens(after, ts, next, room, depth);
                        later_trans(a, after, end);
                    }
                },
            }
        } else if !st.is_active() {
            takes_tokens(st, ts, i + 1, room, depth);
            later_trans(a, st, end);
        } else if ts[i].kind == KindV::Hash && kind_at(ts, i + 1) is Some && (kind_at(
            ts,
            i + 1,
        )->0) is Identifier {
            let text = quoted((kind_at(ts, i + 1)->0)->Identifier_0);
            emits(st, text, ts[i + 1].line, ts[i + 1].col);
            let s = st.emit_str(text, ts[i + 1].line, ts[i + 1].col);
            takes_tokens(s, ts, i + 2, room, depth);
            later_trans(a, st, s);
            later_trans(a, s, end);
        } else if ts[i].kind == KindV::Identifier("__FILE__"@) {
            emits(st, quoted(st.file), ts[i].line, ts[i].col);
            let s = st.emit_str(quoted(st.file), ts[i].line, ts[i].col);
            takes_tokens(s, ts, i + 1, room, depth);
            later_trans(a, st, s);
            later_trans(a, s, end);
        } else if ts[i].kind == KindV::Identifier("__LINE__"@) {
            emits(st, decimal_of(ts[i].line as nat), ts[i].line, ts[i].col);
            let s = st.emit_str(decimal_of(ts[i].line as nat), ts[i].line, ts[i].col);
            takes_tokens(s, ts, i + 1, room, depth);
            later_trans(a, st, s);
            later_trans(a, s, end);
        } else {
            match st.use_at(ts, i) {
                UseV::Nothing => {
                    emits_token(st, ts[i]);
                    let s = st.emit_token(ts[i]);
                    takes_tokens(s, ts, i + 1, room, depth);
                    later_trans(a, st, s);
                    later_trans(a, s, end);
                },
                UseV::Object { replacement } => {
                    if depth >= 256 {
                        goes_too_deep(st, ts[i].line);
                        let s1 = st.too_deep(ts[i].line);
                        emits_token(s1, ts[i]);
                        let s = s1.emit_token(ts[i]);
                        takes_tokens(s, ts, i + 1, room, depth);
                        later_trans(a, st, s1);
                        later_trans(a, s1, s);
                        later_trans(a, s, end);
                    } else {
                        let (inner, r) = st.expand(replacement, 0, depth + 1);
                        expands(st, replacement, 0, depth + 1);
                        later_trans(a, st, inner);
                        if r is Ok {
                            takes_tokens(inner, ts, i + 1, room, depth);
                            later_trans(a, inner, end);
                        }
                    }
                },
                UseV::Function { name, params, body, variadic } => {
                    if depth >= 256 {
                        goes_too_deep(st, ts[i].line);
                        let s1 = st.too_deep(ts[i].line);
                        emits_token(s1, ts[i]);
                        let s = s1.emit_token(ts[i]);
                        takes_tokens(s, ts, i + 1, room, depth);
                        later_trans(a, st, s1);
                        later_trans(a, s1, s);
                        later_trans(a, s, end);
                    } else {
                        match macro_args(ts, i + 1) {
                            ArgsV::Unterminated { at } => {
                                failed(st, line_at(ts, at), "unterminated macro argument list"@);
                                later_trans(a, st, end);
                            },
                            ArgsV::Good { args, end: stop } => {
                                let call = expansion(
                                    CallV { name, origin: ts[i], body, params, args, variadic },
                                );
                                let (inner, r) = st.tokens(call, 0, room, depth + 1);
                                takes_tokens(st, call, 0, room, depth + 1);
                                later_trans(a, st, inner);
                                if r is Err || stop <= i || stop > ts.len() {
                                } else {
                                    takes_tokens(inner, ts, stop, room, depth);
                                    later_trans(a, inner, end);
                                }
                            },
                        }
                    }
                },
            }
        }
    }
}

} // verus!
