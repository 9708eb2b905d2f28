//! What preprocessing means: how each token, directive, header and macro
//! call changes the state of a run.

use crate::paths::{dir_of, file_name_of, is_header_path, joined};
use crate::preproc::condition::condition_holds;
use crate::preproc::directives::{
    aliased, begins_line, body_end, body_tokens, cond_args, ends_line, header_name, line_end,
    list_open, long_line, long_line_end, macro_args, next_line, params_from, skip_newlines, ArgsV,
    ParamsV,
};
use crate::preproc::lexer::lex;
use crate::preproc::macros::{MacroOpV, MacroV};
use crate::preproc::options::{canonical_of, ExpansionV};
use crate::preproc::state::{CondFrame, DiagV, ErrorV, OutPos, StateV};
use crate::preproc::substitute::{expansion, kind_at, painted, punct_at, CallV};
use crate::preproc::token::{plain, KindV, TokenV};
use crate::ir::diagnostic::DiagnosticSeverity;
use crate::text::{decimal_of, is_white, with_name, with_names};
use crate::preproc::compose::sat_minus;
use vstd::prelude::*;

verus! {

/// How many tokens a condition may grow to.
pub const MAX_CONDITION_TOKENS: usize = 65536;

/// How many steps the expansion of a condition may take.
pub const MAX_CONDITION_STEPS: u64 = 1048576;

/// Whether a text holds anything but white space.
pub open spec fn has_content(text: Seq<char>) -> bool {
    exists|i: int| 0 <= i < text.len() && !is_white(#[trigger] text[i])
}

/// The macro that a token calls.
pub enum UseV {
    Nothing,
    Object { replacement: Seq<TokenV> },
    Function { name: Seq<char>, params: Seq<Seq<char>>, body: Seq<TokenV>, variadic: bool },
}

/// The line that the token at `i` is on, 1 where there is none.
pub open spec fn line_at(ts: Seq<TokenV>, i: int) -> u32 {
    if 0 <= i < ts.len() {
        ts[i].line
    } else {
        1
    }
}

/// `name` in quotes.
pub open spec fn quoted(name: Seq<char>) -> Seq<char> {
    "\""@ + name + "\""@
}

/// The files from `from` up to `to` that contributed to the output.
pub open spec fn contributing(
    guard: Seq<Seq<char>>,
    emitted: Map<Seq<char>, usize>,
    from: int,
    to: int,
) -> Seq<Seq<char>>
    decreases to - from,
{
    if from >= to {
        Seq::empty()
    } else {
        let before = contributing(guard, emitted, from, to - 1);
        if emitted.contains_key(guard[to - 1]) && emitted[guard[to - 1]] > 0 {
            with_name(before, guard[to - 1])
        } else {
            before
        }
    }
}

/// The value of the `defined` at `i`, and how many tokens it takes.
pub open spec fn defined_value(st: StateV, ts: Seq<TokenV>, i: int) -> (bool, int) {
    match kind_at(ts, i + 1) {
        Some(KindV::Punct(p)) => if p == "("@ {
            match kind_at(ts, i + 2) {
                Some(KindV::Identifier(n)) => if punct_at(ts, i + 3, ")"@) {
                    (st.is_defined(n), 4)
                } else {
                    (false, 2)
                },
                _ => (false, 2),
            }
        } else {
            (false, 1)
        },
        Some(KindV::Identifier(n)) => (st.is_defined(n), 2),
        _ => (false, 1),
    }
}

impl StateV {
    /// The macro that the token at `i` calls: one that is not hidden there
    /// and, if it takes arguments, has a list behind it.
    pub open spec fn use_at(self, ts: Seq<TokenV>, i: int) -> UseV {
        match kind_at(ts, i) {
            Some(KindV::Identifier(name)) => if ts[i].hidden.contains(name)
                || !self.macros.contains_key(name) {
                UseV::Nothing
            } else {
                match self.macros[name] {
                    MacroV::Object { replacement } => UseV::Object {
                        replacement: painted(replacement, ts[i], name),
                    },
                    MacroV::Function { params, replacement, variadic } => if punct_at(
                        ts,
                        skip_newlines(ts, i + 1),
                        "("@,
                    ) {
                        UseV::Function { name, params, body: replacement, variadic }
                    } else {
                        UseV::Nothing
                    },
                }
            },
            _ => UseV::Nothing,
        }
    }

    /// Scans the tokens from `i` on for macros, and writes out what they
    /// come to. There are no directives among them; a `#` makes a string of
    /// the name behind it. `depth` expansions are under way.
    pub open spec fn expand(self, ts: Seq<TokenV>, i: int, depth: int) -> (StateV, Result<
        (),
        ErrorV,
    >)
        decreases 256 - depth, ts.len() - i,
    {
        if i < 0 || i >= ts.len() {
            (self, Ok(()))
        } else {
            let (st, counted) = self.count_token(ts[i].line);
            if counted is Err {
                (st, counted)
            } else if ts[i].kind == KindV::Eof {
                (st, Ok(()))
            } else if !st.is_active() {
                st.expand(ts, i + 1, depth)
            } else if ts[i].kind == KindV::Hash {
                match kind_at(ts, i + 1) {
                    Some(KindV::Identifier(name)) => st.emit_str(
                        quoted(name),
                        ts[i + 1].line,
                        ts[i + 1].col,
                    ).expand(ts, i + 2, depth),
                    _ => st.emit_token(ts[i]).expand(ts, i + 1, depth),
                }
            } else {
                match st.use_at(ts, i) {
                    UseV::Nothing => st.emit_token(ts[i]).expand(ts, i + 1, depth),
                    UseV::Object { replacement } => if depth >= 256 {
                        st.too_deep(ts[i].line).emit_token(ts[i]).expand(ts, i + 1, depth)
                    } else {
                        let (inner, r) = st.expand(replacement, 0, depth + 1);
                        if r is Err {
                            (inner, r)
                        } else {
                            inner.expand(ts, i + 1, depth)
                        }
                    },
                    UseV::Function { name, params, body, variadic } => if depth >= 256 {
                        st.too_deep(ts[i].line).emit_token(ts[i]).expand(ts, i + 1, depth)
                    } else {
                        match macro_args(ts, i + 1) {
                            ArgsV::Unterminated { at } => st.unterminated(line_at(ts, at)),
                            ArgsV::Good { args, end } => {
                                let (inner, r) = st.expand(
                                    expansion(
                                        CallV { name, origin: ts[i], body, params, args, variadic },
                                    ),
                                    0,
                                    depth + 1,
                                );
                                if r is Err || end <= i || end > ts.len() {
                                    (inner, r)
                                } else {
                                    inner.expand(ts, end, depth)
                                }
                            },
                        }
                    },
                }
            }
        }
    }

    /// A call whose arguments run into the end of the text.
    pub open spec fn unterminated(self, line: u32) -> (StateV, Result<(), ErrorV>) {
        let message = "unterminated macro argument list"@;
        (self.error(line, message), Err(ErrorV::Message { message }))
    }

    /// `out` followed by what the tokens from `i` on expand to on a line
    /// that names a header.
    pub open spec fn include_operand(
        self,
        ts: Seq<TokenV>,
        i: int,
        out: Seq<TokenV>,
        depth: int,
    ) -> (StateV, Result<Seq<TokenV>, ErrorV>)
        decreases 256 - depth, ts.len() - i,
    {
        if i < 0 || i >= ts.len() {
            (self, Ok(out))
        } else if ts[i].kind == KindV::Newline || ts[i].kind == KindV::Eof {
            self.include_operand(ts, i + 1, out, depth)
        } else {
            match self.use_at(ts, i) {
                UseV::Nothing => self.include_operand(ts, i + 1, out.push(ts[i]), depth),
                UseV::Object { replacement } => if depth >= 256 {
                    self.too_deep(ts[i].line).include_operand(ts, i + 1, out.push(ts[i]), depth)
                } else {
                    let (inner, r) = self.include_operand(replacement, 0, Seq::empty(), depth + 1);
                    match r {
                        Err(e) => (inner, r),
                        Ok(nested) => inner.include_operand(ts, i + 1, out + nested, depth),
                    }
                },
                UseV::Function { name, params, body, variadic } => if depth >= 256 {
                    self.too_deep(ts[i].line).include_operand(ts, i + 1, out.push(ts[i]), depth)
                } else {
                    match macro_args(ts, i + 1) {
                        ArgsV::Unterminated { at } => {
                            let message = "unterminated macro argument list"@;
                            (
                                self.error(line_at(ts, at), message),
                                Err(ErrorV::Message { message }),
                            )
                        },
                        ArgsV::Good { args, end } => {
                            let (inner, r) = self.include_operand(
                                expansion(
                                    CallV { name, origin: ts[i], body, params, args, variadic },
                                ),
                                0,
                                Seq::empty(),
                                depth + 1,
                            );
                            match r {
                                Err(e) => (inner, r),
                                Ok(nested) => if end <= i || end > ts.len() {
                                    (inner, r)
                                } else {
                                    inner.include_operand(ts, end, out + nested, depth)
                                },
                            }
                        },
                    }
                },
            }
        }
    }

    /// `out` followed by what the tokens of a condition from `i` on expand
    /// to, after `steps` steps; the line where they grow beyond the limits.
    ///
    /// `defined` is decided before anything is expanded. What a macro comes
    /// to is scanned again together with what follows it. Fallbacks do not
    /// count as macros here.
    pub open spec fn condition_tokens(
        self,
        work: Seq<TokenV>,
        i: int,
        out: Seq<TokenV>,
        steps: int,
    ) -> Result<Seq<TokenV>, u32>
        decreases MAX_CONDITION_STEPS - steps,
    {
        if i < 0 || i >= work.len() {
            Ok(out)
        } else if steps >= MAX_CONDITION_STEPS || work.len() > MAX_CONDITION_TOKENS || out.len()
            > MAX_CONDITION_TOKENS {
            Err(work[i].line)
        } else {
            let tok = work[i];
            match tok.kind {
                KindV::Identifier(name) => if name == "defined"@ {
                    let (val, n) = defined_value(self, work, i);
                    let digit = if val {
                        "1"@
                    } else {
                        "0"@
                    };
                    self.condition_tokens(
                        work,
                        i + n,
                        out.push(plain(KindV::Number(digit), tok.line, tok.col)),
                        steps + 1,
                    )
                } else if name == "__LINE__"@ {
                    self.condition_tokens(
                        work,
                        i + 1,
                        out.push(
                            plain(
                                KindV::Number(decimal_of(tok.line as nat)),
                                tok.line,
                                tok.col,
                            ),
                        ),
                        steps + 1,
                    )
                } else if tok.hidden.contains(name) || self.fallbacks.contains(name)
                    || !self.macros.contains_key(name) {
                    self.condition_tokens(work, i + 1, out.push(tok), steps + 1)
                } else {
                    match self.macros[name] {
                        MacroV::Object { replacement } => self.condition_tokens(
                            work.take(i) + painted(replacement, tok, name) + work.skip(i + 1),
                            i,
                            out,
                            steps + 1,
                        ),
                        MacroV::Function { params, replacement, variadic } => match cond_args(
                            work,
                            i + 1,
                        ) {
                            Some((args, next)) => self.condition_tokens(
                                work.take(i) + expansion(
                                    CallV {
                                        name,
                                        origin: tok,
                                        body: replacement,
                                        params,
                                        args,
                                        variadic,
                                    },
                                ) + work.skip(next),
                                i,
                                out,
                                steps + 1,
                            ),
                            None => self.condition_tokens(work, i + 1, out.push(tok), steps + 1),
                        },
                    }
                },
                _ => self.condition_tokens(work, i + 1, out.push(tok), steps + 1),
            }
        }
    }

    /// The value of the condition at `i`.
    pub open spec fn condition(self, ts: Seq<TokenV>, i: int) -> (StateV, bool) {
        match self.condition_tokens(long_line(ts, i), 0, Seq::empty(), 0) {
            Ok(expanded) => (self, condition_holds(expanded)),
            Err(line) => (
                self.warn(
                    line,
                    "macro expansion budget exceeded in #if condition; treating as false"@,
                ),
                false,
            ),
        }
    }

    /// A directive that lacks the name it is about.
    pub open spec fn no_identifier(self, ts: Seq<TokenV>, i: int) -> (StateV, Result<int, ErrorV>) {
        let message = "expected identifier in directive"@;
        (
            self.error(line_at(ts, skip_newlines(ts, i)), message),
            Err(ErrorV::Message { message }),
        )
    }

    /// `#define`.
    pub open spec fn define(self, ts: Seq<TokenV>, i: int) -> (StateV, Result<int, ErrorV>) {
        let j = skip_newlines(ts, i);
        match kind_at(ts, j) {
            Some(KindV::Identifier(name)) => match list_open(ts, j) {
                Some(open) => match params_from(ts, open + 1, Seq::empty()) {
                    ParamsV::Bad { at } => (
                        self.warn(
                            line_at(ts, at),
                            if ends_line(ts, at) {
                                "unterminated macro parameter list; definition ignored"@
                            } else {
                                "expected , or ) in macro parameters; definition ignored"@
                            },
                        ),
                        Ok(long_line_end(ts, at)),
                    ),
                    ParamsV::Good { params, variadic, end } => {
                        let body = body_tokens(ts, end);
                        let replacement = if variadic && params.len() > 0 && params.last()
                            != "__VA_ARGS__"@ {
                            aliased(body, params.last())
                        } else {
                            body
                        };
                        (
                            self.run_op(
                                MacroOpV::Define(
                                    name,
                                    MacroV::Function { params, replacement, variadic },
                                ),
                            ),
                            Ok(body_end(ts, end)),
                        )
                    },
                },
                None => (
                    self.run_op(
                        MacroOpV::Define(
                            name,
                            MacroV::Object { replacement: body_tokens(ts, j + 1) },
                        ),
                    ),
                    Ok(body_end(ts, j + 1)),
                ),
            },
            _ => self.no_identifier(ts, i),
        }
    }

    /// `#undef`.
    pub open spec fn undef(self, ts: Seq<TokenV>, i: int) -> (StateV, Result<int, ErrorV>) {
        let j = skip_newlines(ts, i);
        match kind_at(ts, j) {
            Some(KindV::Identifier(name)) => (self.run_op(MacroOpV::Undef(name)), Ok(j + 1)),
            _ => self.no_identifier(ts, i),
        }
    }

    /// `#ifdef`, and `#ifndef` where `wanted` is false. In text that is
    /// skipped only the nesting matters.
    pub open spec fn ifdef(self, ts: Seq<TokenV>, i: int, wanted: bool) -> (StateV, Result<
        int,
        ErrorV,
    >) {
        let j = skip_newlines(ts, i);
        if !self.is_active() {
            (self.push_cond(false), Ok(i))
        } else {
            match kind_at(ts, j) {
                Some(KindV::Identifier(name)) => (
                    self.push_cond(self.is_defined(name) == wanted),
                    Ok(j + 1),
                ),
                _ => self.no_identifier(ts, i),
            }
        }
    }

    /// `#if`. A condition in text that is skipped is not evaluated.
    pub open spec fn if_(self, ts: Seq<TokenV>, i: int) -> (StateV, Result<int, ErrorV>) {
        let (st, holds) = if self.is_active() {
            self.condition(ts, i)
        } else {
            (self, false)
        };
        (st.push_cond(holds), Ok(long_line_end(ts, i)))
    }

    /// `#elif`, `#else` or `#endif` where there is no `#if`.
    pub open spec fn without_if(self, ts: Seq<TokenV>, i: int, message: Seq<char>) -> (
        StateV,
        Result<int, ErrorV>,
    ) {
        (self.error(line_at(ts, i - 1), message), Err(ErrorV::Message { message }))
    }

    /// `#elif`: its branch is taken if its condition holds and no earlier
    /// one was; otherwise the condition is not even evaluated.
    pub open spec fn elif(self, ts: Seq<TokenV>, i: int) -> (StateV, Result<int, ErrorV>) {
        if self.conds.len() == 0 {
            self.without_if(ts, i, "#elif without #if"@)
        } else {
            let f = self.conds.last();
            let end = long_line_end(ts, i);
            let (evaluated, holds) = if f.parent_active && !f.taken && !f.else_seen {
                self.condition(ts, i)
            } else {
                (self, false)
            };
            let st = if f.else_seen {
                evaluated.warn(line_at(ts, end - 1), "#elif after #else; branch ignored"@)
            } else {
                evaluated
            };
            let active = f.parent_active && !f.taken && holds;
            (st.with_cond(CondFrame { active, taken: f.taken || active, ..f }), Ok(end))
        }
    }

    /// `#else`: its branch is taken if no earlier one was.
    pub open spec fn else_(self, ts: Seq<TokenV>, i: int) -> (StateV, Result<int, ErrorV>) {
        if self.conds.len() == 0 {
            self.without_if(ts, i, "#else without #if"@)
        } else {
            let f = self.conds.last();
            (
                self.with_cond(
                    CondFrame {
                        active: f.parent_active && !f.taken,
                        taken: true,
                        else_seen: true,
                        ..f
                    },
                ),
                Ok(i),
            )
        }
    }

    /// `#endif`.
    pub open spec fn endif(self, ts: Seq<TokenV>, i: int) -> (StateV, Result<int, ErrorV>) {
        if self.conds.len() == 0 {
            self.without_if(ts, i, "#endif without #if"@)
        } else {
            (StateV { conds: self.conds.drop_last(), ..self }, Ok(i))
        }
    }

    /// The first of the directories from `k` on that has the file.
    pub open spec fn search(self, path: Seq<char>, k: int) -> (StateV, Option<Seq<char>>)
        decreases self.cfg.include_paths.len() - k,
    {
        if k < 0 || k >= self.cfg.include_paths.len() {
            (self, None)
        } else {
            let p = joined(self.cfg.include_paths[k], path);
            if self.cfg.tree.contains_key(p) && self.cfg.tree[p].is_file {
                (self, Some(p))
            } else {
                self.note_missing(p).search(path, k + 1)
            }
        }
    }

    /// The file that a header's name stands for: one beside the file that
    /// includes it, then one in the directories to search, then the only
    /// one of that name.
    pub open spec fn resolve(self, path: Seq<char>) -> (StateV, Option<Seq<char>>) {
        let candidate = if (path.len() > 0 && path[0] == '/') || path.contains('\\') {
            path
        } else {
            joined(dir_of(self.file), path)
        };
        if self.cfg.tree.contains_key(candidate) {
            (self, Some(candidate))
        } else {
            let (st, found) = self.note_missing(candidate).search(path, 0);
            let name = file_name_of(path);
            match (found, self.cfg.index) {
                (Some(p), _) => (st, Some(p)),
                (None, Some(index)) => if index.contains_key(name) && index[name].len() == 1 {
                    (st, Some(index[name][0]))
                } else {
                    (st, None)
                },
                (None, None) => (st, None),
            }
        }
    }

    /// The header that an `#include` at `i` names, its line macro-expanded
    /// if need be.
    pub open spec fn include_name(self, ts: Seq<TokenV>, i: int, depth: int) -> (StateV, Result<
        Seq<char>,
        ErrorV,
    >) {
        match header_name(ts, i) {
            Some(p) => (self, Ok(p)),
            None => {
                let (st, r) = self.include_operand(
                    ts.subrange(i, line_end(ts, i)),
                    0,
                    Seq::empty(),
                    depth,
                );
                match r {
                    Err(e) => (st, Err(e)),
                    Ok(expanded) => match header_name(expanded, 0) {
                        Some(p) => (st, Ok(p)),
                        None => {
                            let message = "expected string or <...> after #include"@;
                            (st.error(line_at(ts, i), message), Err(ErrorV::Message { message }))
                        },
                    },
                }
            },
        }
    }

    /// The state once a header has been read whose text is `content`, which
    /// began at `start` when `guard_len` files and `ops_len` directives were
    /// known.
    pub open spec fn close_header(
        self,
        path: Seq<char>,
        canonical: Seq<char>,
        content: Seq<char>,
        start: OutPos,
        guard_len: int,
        ops_len: int,
    ) -> StateV {
        let emitted = sat_minus(self.out_len, start.bytes);
        let counted = StateV { emitted: self.emitted.insert(canonical, emitted), ..self };
        if self.cfg.cache is None || self.cfg.frozen || !is_header_path(canonical) {
            counted
        } else {
            let pending = if self.frames.len() > 0 {
                self.frames.last()
            } else {
                Seq::empty()
            };
            let st = if emitted == 0 && pending.len() == 0 && has_content(content) {
                StateV {
                    diags: counted.diags.push(
                        DiagV {
                            severity: DiagnosticSeverity::Warning,
                            file: Some(path),
                            line: 1,
                            message:
                                "resolved include expanded to nothing (guard already defined?)"@,
                        },
                    ),
                    ..counted
                }
            } else {
                counted
            };
            let popped = StateV {
                frames: if self.frames.len() > 0 {
                    self.frames.drop_last()
                } else {
                    self.frames
                },
                ..st
            };
            let composed = if self.cfg.inline {
                popped.composed(start, popped.pos(), pending)
            } else {
                popped.raw(start, popped.pos())
            };
            let entry = ExpansionV {
                text: composed.text,
                files: with_names(
                    contributing(
                        popped.guard,
                        popped.emitted,
                        guard_len,
                        popped.guard.len() as int,
                    ),
                    composed.files,
                ),
                line_map: composed.line_map,
                ops: if ops_len <= popped.ops.len() {
                    popped.ops.skip(ops_len)
                } else {
                    Seq::empty()
                },
            };
            let kept = if entry.text.len() > 0 || entry.ops.len() > 0 || entry.files.len() > 0 {
                popped.keep(canonical, entry)
            } else {
                popped
            };
            if kept.frames.len() == 0 {
                StateV { ops: Seq::empty(), ..kept }
            } else {
                kept
            }
        }
    }

    /// Takes a file in, unless it has been before, or `room` says that no
    /// more files may be nested.
    pub open spec fn file(self, path: Seq<char>, room: nat, depth: int) -> (StateV, Result<
        (),
        ErrorV,
    >)
        decreases room, 256 - depth, 0int, 1int,
    {
        let st = self.note_missing(path);
        let canonical = canonical_of(self.cfg.tree, path);
        if st.guard.contains(canonical) {
            (
                if st.cfg.frozen {
                    st
                } else {
                    st.note_skip(st.pos(), canonical)
                },
                Ok(()),
            )
        } else if room == 0 {
            (
                st.warn(
                    1,
                    "include depth exceeded ("@ + decimal_of(self.cfg.max_depth as nat)
                        + "); skipping "@ + path,
                ),
                Ok(()),
            )
        } else if st.expansion(canonical) is Some {
            (st.replay(canonical, st.expansion(canonical)->0), Ok(()))
        } else {
            let opened = StateV {
                guard: with_name(st.guard, canonical),
                frames: if st.cfg.cache is Some && is_header_path(canonical) && !st.cfg.frozen {
                    st.frames.push(Seq::empty())
                } else {
                    st.frames
                },
                ..st
            };
            let content: Result<Seq<char>, Seq<char>> = if st.cfg.tree.contains_key(path) {
                st.cfg.tree[path].content
            } else {
                Err("file not found"@)
            };
            match content {
                Err(reason) => (opened, Err(ErrorV::Io { path, reason })),
                Ok(text) => {
                    let (read, r) = StateV { file: path, ..opened }.tokens(
                        lex(text),
                        0,
                        (room - 1) as nat,
                        depth,
                    );
                    let noted = match r {
                        Err(e) => read.warn(
                            1,
                            "preprocess stopped in "@ + read.file + ": "@ + e.text(),
                        ),
                        Ok(_) => read,
                    };
                    (
                        StateV { file: st.file, ..noted }.close_header(
                            path,
                            canonical,
                            text,
                            st.pos(),
                            st.guard.len() as int,
                            st.ops.len() as int,
                        ),
                        Ok(()),
                    )
                },
            }
        }
    }

    /// `#include`.
    pub open spec fn include_(self, ts: Seq<TokenV>, i: int, room: nat, depth: int) -> (
        StateV,
        Result<int, ErrorV>,
    )
        decreases room, 256 - depth, ts.len() - i, 2int,
    {
        let j = skip_newlines(ts, i);
        let (named, name) = self.include_name(ts, j, depth);
        match name {
            Err(e) => (named, Err(e)),
            Ok(path) => {
                let (st, found) = named.resolve(path);
                match found {
                    None => (
                        st.warn(line_at(ts, j), "include file not found, skipping: "@ + path),
                        Ok(j),
                    ),
                    Some(target) => {
                        let live = st.pos();
                        let (read, r) = if i <= ts.len() {
                            st.file(target, room, depth)
                        } else {
                            (st, Ok(()))
                        };
                        let noted = match r {
                            Err(e) => read.warn(
                                line_at(ts, j),
                                "include preprocessing failed for "@ + path + ": "@ + e.text(),
                            ),
                            Ok(_) => read,
                        };
                        if !noted.cfg.inline && !noted.cfg.frozen && is_header_path(target) {
                            (
                                noted.truncate(live).note_skip(
                                    live,
                                    canonical_of(noted.cfg.tree, target),
                                ),
                                Ok(j),
                            )
                        } else {
                            (noted, Ok(j))
                        }
                    },
                }
            },
        }
    }

    /// The directive whose `#` is at `start`.
    pub open spec fn directive(self, ts: Seq<TokenV>, start: int, room: nat, depth: int) -> (
        StateV,
        Result<int, ErrorV>,
    )
        decreases room, 256 - depth, ts.len() - start, 3int,
    {
        let at = skip_newlines(ts, start + 1);
        if at < start || at >= ts.len() {
            (self, Ok(at))
        } else {
            match ts[at].kind {
                KindV::Identifier(name) => {
                    let i = at + 1;
                    let active = self.is_active();
                    let (st, r) = if name == "include"@ {
                        if active {
                            self.include_(ts, i, room, depth)
                        } else {
                            (self, Ok(i))
                        }
                    } else if name == "define"@ {
                        if active {
                            self.define(ts, i)
                        } else {
                            (self, Ok(i))
                        }
                    } else if name == "ifdef"@ {
                        self.ifdef(ts, i, true)
                    } else if name == "ifndef"@ {
                        self.ifdef(ts, i, false)
                    } else if name == "if"@ {
                        self.if_(ts, i)
                    } else if name == "elif"@ {
                        self.elif(ts, i)
                    } else if name == "else"@ {
                        self.else_(ts, i)
                    } else if name == "endif"@ {
                        self.endif(ts, i)
                    } else if name == "line"@ || name == "pragma"@ {
                        (self, Ok(i))
                    } else if name == "undef"@ {
                        if active {
                            self.undef(ts, i)
                        } else {
                            (self, Ok(i))
                        }
                    } else {
                        (self.warn(ts[at].line, "unknown directive #"@ + name), Ok(i))
                    };
                    match r {
                        Ok(end) => (st, Ok(next_line(ts, end))),
                        Err(e) => (st, Err(e)),
                    }
                },
                _ => {
                    let message = "expected directive name after #"@;
                    (self.error(ts[at].line, message), Err(ErrorV::Message { message }))
                },
            }
        }
    }

    /// The tokens of a text from `i` on: directives, macros and the rest.
    /// `room` more files may be nested, `depth` expansions are under way.
    pub open spec fn tokens(self, ts: Seq<TokenV>, i: int, room: nat, depth: int) -> (
        StateV,
        Result<(), ErrorV>,
    )
        decreases room, 256 - depth, ts.len() - i, 4int,
    {
        if i < 0 || i >= ts.len() {
            (self, Ok(()))
        } else {
            let (st, counted) = self.count_token(ts[i].line);
            if counted is Err {
                (st, counted)
            } else if ts[i].kind == KindV::Eof {
                (st, Ok(()))
            } else if ts[i].kind == KindV::Hash && begins_line(ts, i) {
                let (after, r) = st.directive(ts, i, room, depth);
                match r {
                    Err(e) => (after, Err(e)),
                    Ok(next) => if i < next <= ts.len() {
                        after.tokens(ts, next, room, depth)
                    } else {
                        (after, Ok(()))
                    },
                }
            } else if !st.is_active() {
                st.tokens(ts, i + 1, room, depth)
            } else if ts[i].kind == KindV::Hash && kind_at(ts, i + 1) is Some && (kind_at(
                ts,
                i + 1,
            )->0) is Identifier {
                st.emit_str(
                    quoted((kind_at(ts, i + 1)->0)->Identifier_0),
                    ts[i + 1].line,
                    ts[i + 1].col,
                ).tokens(ts, i + 2, room, depth)
            } else if ts[i].kind == KindV::Identifier("__FILE__"@) {
                st.emit_str(quoted(st.file), ts[i].line, ts[i].col).tokens(ts, i + 1, room, depth)
            } else if ts[i].kind == KindV::Identifier("__LINE__"@) {
                st.emit_str(decimal_of(ts[i].line as nat), ts[i].line, ts[i].col).tokens(
                    ts,
                    i + 1,
                    room,
                    depth,
                )
            } else {
                match st.use_at(ts, i) {
                    UseV::Nothing => st.emit_token(ts[i]).tokens(ts, i + 1, room, depth),
                    UseV::Object { replacement } => if depth >= 256 {
                        st.too_deep(ts[i].line).emit_token(ts[i]).tokens(ts, i + 1, room, depth)
                    } else {
                        let (inner, r) = st.expand(replacement, 0, depth + 1);
                        if r is Err {
                            (inner, r)
                        } else {
                            inner.tokens(ts, i + 1, room, depth)
                        }
                    },
                    UseV::Function { name, params, body, variadic } => if depth >= 256 {
                        st.too_deep(ts[i].line).emit_token(ts[i]).tokens(ts, i + 1, room, depth)
                    } else {
                        match macro_args(ts, i + 1) {
                            ArgsV::Unterminated { at } => st.unterminated(line_at(ts, at)),
                            ArgsV::Good { args, end } => {
                                let (inner, r) = st.tokens(
                                    expansion(
                                        CallV { name, origin: ts[i], body, params, args, variadic },
                                    ),
                                    0,
                                    room,
                                    depth + 1,
                                );
                                if r is Err || end <= i || end > ts.len() {
                                    (inner, r)
                                } else {
                                    inner.tokens(ts, end, room, depth)
                                }
                            },
                        }
                    },
                }
            }
        }
    }
}

} // verus!
