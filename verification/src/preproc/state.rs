//! The state of a run, and the steps that change it.

use crate::ir::diagnostic::DiagnosticSeverity;
use crate::ir::program::pairs_view;
use crate::preproc::line_map::{LineMap, LineMapV};
use crate::preproc::macros::{
    apply_op, clone_ops, ops_view, push_op, LocalMacros, MacroDef, MacroOp, MacroOpV, MacroV,
};
use crate::preproc::options::{added_view, ExpansionV, FileV, IncludeExpansion, PreprocessOptions};
use crate::preproc::token::{KindV, Token, TokenKind, TokenV};
use crate::text::{
    add_name, add_names, byte_len, cat2, cat3, char_width, chars_of, clone_names, decimal,
    decimal_of, names_view, owned, sat_usize, str_eq, take_push, with_name, with_names,
};
use vstd::hash_map::StringHashMap;
use vstd::hash_set::StringHashSet;
use vstd::prelude::*;
use vstd::string::*;

verus! {

broadcast use take_push;

/// How deep macro expansions may nest.
pub const MAX_MACRO_EXPANSION_DEPTH: u32 = 256;

/// What is reported about a run.
#[derive(Debug)]
pub struct Diagnostic {
    pub severity: DiagnosticSeverity,
    pub file: Option<String>,
    pub line: u32,
    pub message: String,
}

/// The mathematical form of a [`Diagnostic`].
pub struct DiagV {
    pub severity: DiagnosticSeverity,
    pub file: Option<Seq<char>>,
    pub line: u32,
    pub message: Seq<char>,
}

impl View for Diagnostic {
    type V = DiagV;

    open spec fn view(&self) -> DiagV {
        DiagV {
            severity: self.severity,
            file: match self.file {
                Some(f) => Some(f@),
                None => None,
            },
            line: self.line,
            message: self.message@,
        }
    }
}

/// The mathematical form of a list of diagnostics.
pub open spec fn diags_view(s: Seq<Diagnostic>) -> Seq<DiagV> {
    Seq::new(s.len(), |i: int| s[i]@)
}

/// Why a file could not be preprocessed to its end.
#[derive(Debug)]
pub enum PreprocessError {
    Io { path: String, reason: String },
    Message { message: String },
}

/// The mathematical form of a [`PreprocessError`].
pub enum ErrorV {
    Io { path: Seq<char>, reason: Seq<char> },
    Message { message: Seq<char> },
}

impl View for PreprocessError {
    type V = ErrorV;

    open spec fn view(&self) -> ErrorV {
        match *self {
            PreprocessError::Io { path, reason } => ErrorV::Io { path: path@, reason: reason@ },
            PreprocessError::Message { message } => ErrorV::Message { message: message@ },
        }
    }
}

impl ErrorV {
    /// The text of the error.
    pub open spec fn text(self) -> Seq<char> {
        match self {
            ErrorV::Io { path, reason } => "failed to read "@ + path + ": "@ + reason,
            ErrorV::Message { message } => message,
        }
    }
}

impl PreprocessError {
    /// The text of the error.
    pub fn text(&self) -> (r: String)
        ensures
            r@ == self@.text(),
    {
        match self {
            PreprocessError::Io { path, reason } => cat2(
                cat3("failed to read ", path.as_str(), ": ").as_str(),
                reason.as_str(),
            ),
            PreprocessError::Message { message } => message.clone(),
        }
    }
}

/// One level of `#if` nesting.
#[derive(Debug, Clone, Copy, PartialEq, Eq, Structural)]
pub struct CondFrame {
    /// Was the enclosing text active when the `#if` was seen?
    pub parent_active: bool,
    /// Is the branch that is being read active?
    pub active: bool,
    /// Has any branch been taken yet?
    pub taken: bool,
    /// Has `#else` been seen?
    pub else_seen: bool,
}

/// A place in the output, in characters and in bytes.
#[derive(Debug, Clone, Copy, PartialEq, Eq, Structural)]
pub struct OutPos {
    pub chars: usize,
    pub bytes: usize,
}

/// A header that was not expanded because it had been before, and where.
#[derive(Debug)]
pub struct Skip {
    pub at: OutPos,
    pub path: String,
}

/// The mathematical form of a [`Skip`].
pub struct SkipV {
    pub at: OutPos,
    pub path: Seq<char>,
}

impl View for Skip {
    type V = SkipV;

    open spec fn view(&self) -> SkipV {
        SkipV { at: self.at, path: self.path@ }
    }
}

pub open spec fn skips_view(s: Seq<Skip>) -> Seq<SkipV> {
    Seq::new(s.len(), |i: int| s[i]@)
}

pub open spec fn frames_view(s: Seq<Vec<Skip>>) -> Seq<Seq<SkipV>> {
    Seq::new(s.len(), |i: int| skips_view(s[i]@))
}

/// What a run does not change.
pub struct ConfigV {
    pub include_paths: Seq<Seq<char>>,
    /// Are definitions to be added to a shared table?
    pub accumulate: bool,
    pub cache: Option<Map<Seq<char>, ExpansionV>>,
    pub frozen: bool,
    pub inline: bool,
    pub max_depth: usize,
    pub max_tokens: u64,
    pub max_bytes: usize,
    pub track: bool,
    pub index: Option<Map<Seq<char>, Seq<Seq<char>>>>,
    pub tree: Map<Seq<char>, FileV>,
}

pub open spec fn config_of(opts: PreprocessOptions) -> ConfigV {
    ConfigV {
        include_paths: names_view(opts.include_paths@),
        accumulate: opts.accumulate_macros && opts.shared_macros is Some,
        cache: match opts.include_expansion_cache {
            Some(c) => Some(c@),
            None => None,
        },
        frozen: opts.frozen_expansion_cache,
        inline: opts.inline_include_bodies,
        max_depth: opts.max_include_depth,
        max_tokens: opts.max_expanded_tokens,
        max_bytes: opts.max_output_bytes,
        track: opts.track_line_map,
        index: match opts.basename_index {
            Some(i) => Some(i@),
            None => None,
        },
        tree: opts.tree@,
    }
}

/// The mathematical form of [`PreprocessOptions`].
pub struct OptionsV {
    pub cfg: ConfigV,
    /// The table that a run starts from.
    pub shared: Option<Map<Seq<char>, MacroV>>,
    pub defines: Seq<(Seq<char>, Seq<char>)>,
}

impl View for PreprocessOptions {
    type V = OptionsV;

    open spec fn view(&self) -> OptionsV {
        OptionsV {
            cfg: config_of(*self),
            shared: match self.shared_macros {
                Some(t) => Some(t@),
                None => None,
            },
            defines: pairs_view(self.defines@),
        }
    }
}

/// The state of a run.
#[verifier::ext_equal]
pub struct StateV {
    pub cfg: ConfigV,
    pub macros: Map<Seq<char>, MacroV>,
    /// Macros that only a builtin fallback defines: they expand, but
    /// conditionals do not see them.
    pub fallbacks: Set<Seq<char>>,
    /// Canonical paths of the files expanded so far.
    pub guard: Seq<Seq<char>>,
    pub conds: Seq<CondFrame>,
    pub out: Seq<char>,
    /// The length of `out` in bytes.
    pub out_len: usize,
    pub line_map: LineMapV,
    pub diags: Seq<DiagV>,
    pub file: Seq<char>,
    /// How many bytes each file has contributed.
    pub emitted: Map<Seq<char>, usize>,
    pub warned: bool,
    pub tokens: u64,
    /// The headers that are being expanded for the cache.
    pub frames: Seq<Seq<SkipV>>,
    /// The macro directives that ran while such a header was open.
    pub ops: Seq<MacroOpV>,
    /// The macro directives that concern the shared table.
    pub shared_ops: Seq<MacroOpV>,
    /// Expansions made by this run.
    pub added: Seq<(Seq<char>, ExpansionV)>,
    /// Paths that were looked for and of which nothing is known.
    pub missing: Seq<Seq<char>>,
}

/// The expansion among the first `n` that a path has.
pub open spec fn find_added(
    added: Seq<(Seq<char>, ExpansionV)>,
    path: Seq<char>,
    i: int,
) -> Option<ExpansionV>
    decreases added.len() - i,
{
    if i < 0 || i >= added.len() {
        None
    } else if added[i].0 == path {
        Some(added[i].1)
    } else {
        find_added(added, path, i + 1)
    }
}

/// Whether a blank is to be put before a token, given what is before it.
pub open spec fn needs_space(out: Seq<char>, kind: KindV) -> bool {
    if out.len() == 0 || out.last() == '\n' || out.last() == ' ' {
        false
    } else {
        match kind {
            KindV::Punct(s) => if s == ";"@ || s == ","@ || s == "}"@ || s == "::"@ || s == "."@ {
                true
            } else if s == "&"@ || s == "*"@ {
                out.last() == '>'
            } else {
                false
            },
            KindV::Newline => false,
            _ => !(out.last() == '(' || out.last() == '[' || out.last() == '{' || out.last() == '.'
                || out.last() == ';'),
        }
    }
}

/// A token as it is written out.
pub open spec fn token_text(kind: KindV) -> Seq<char> {
    match kind {
        KindV::Identifier(s) => s,
        KindV::Number(s) => s,
        KindV::String(s) => "\""@ + s + "\""@,
        KindV::Char(s) => "'"@ + s + "'"@,
        KindV::Punct(s) => s,
        KindV::Hash => "#"@,
        KindV::Newline => "\n"@,
        KindV::Eof => Seq::empty(),
    }
}

impl StateV {
    pub open spec fn pos(self) -> OutPos {
        OutPos { chars: self.out.len() as usize, bytes: self.out_len }
    }

    /// Text is active unless the innermost `#if` says otherwise.
    pub open spec fn is_active(self) -> bool {
        self.conds.len() == 0 || self.conds.last().active
    }

    /// What a path's expansion is, in the cache or made by this run.
    pub open spec fn expansion(self, path: Seq<char>) -> Option<ExpansionV> {
        match self.cfg.cache {
            Some(base) => if base.contains_key(path) {
                Some(base[path])
            } else {
                find_added(self.added, path, 0)
            },
            None => None,
        }
    }

    /// Whether conditionals see the macro.
    pub open spec fn is_defined(self, name: Seq<char>) -> bool {
        self.macros.contains_key(name) && !self.fallbacks.contains(name)
    }

    pub open spec fn push_diag(self, severity: DiagnosticSeverity, line: u32, message: Seq<char>)
        -> StateV {
        StateV {
            diags: self.diags.push(DiagV { severity, file: Some(self.file), line, message }),
            ..self
        }
    }

    pub open spec fn warn(self, line: u32, message: Seq<char>) -> StateV {
        self.push_diag(DiagnosticSeverity::Warning, line, message)
    }

    pub open spec fn error(self, line: u32, message: Seq<char>) -> StateV {
        self.push_diag(DiagnosticSeverity::Error, line, message)
    }

    /// A `#define`, or an `#undef`.
    pub open spec fn run_op(self, op: MacroOpV) -> StateV {
        StateV {
            macros: apply_op(self.macros, op),
            fallbacks: self.fallbacks.remove(
                match op {
                    MacroOpV::Define(name, _) => name,
                    MacroOpV::Undef(name) => name,
                },
            ),
            ops: if self.frames.len() > 0 {
                self.ops.push(op)
            } else {
                self.ops
            },
            shared_ops: if self.cfg.accumulate {
                self.shared_ops.push(op)
            } else {
                self.shared_ops
            },
            ..self
        }
    }

    pub open spec fn run_ops(self, ops: Seq<MacroOpV>) -> StateV
        decreases ops.len(),
    {
        if ops.len() == 0 {
            self
        } else {
            self.run_ops(ops.drop_last()).run_op(ops.last())
        }
    }

    /// An `#if` whose condition is `cond`.
    pub open spec fn push_cond(self, cond: bool) -> StateV {
        let active = self.is_active() && cond;
        StateV {
            conds: self.conds.push(
                CondFrame {
                    parent_active: self.is_active(),
                    active,
                    taken: active,
                    else_seen: false,
                },
            ),
            ..self
        }
    }

    /// The innermost `#if` in another state.
    pub open spec fn with_cond(self, frame: CondFrame) -> StateV {
        StateV { conds: self.conds.drop_last().push(frame), ..self }
    }

    /// Text that comes from the line and column given.
    pub open spec fn emit_str(self, text: Seq<char>, line: u32, col: u32) -> StateV {
        StateV {
            out: self.out + text,
            out_len: sat_usize(self.out_len + byte_len(text)),
            line_map: if self.cfg.track {
                let m = self.line_map.interned(self.file);
                m.pushed(self.out_len, m.index(self.file), line, col)
            } else {
                self.line_map
            },
            ..self
        }
    }

    pub open spec fn emit_space(self) -> StateV {
        StateV { out: self.out.push(' '), out_len: sat_usize(self.out_len + 1), ..self }
    }

    pub open spec fn emit_token(self, tok: TokenV) -> StateV {
        if tok.kind == KindV::Eof {
            self
        } else {
            let spaced = if tok.kind != KindV::Newline && needs_space(self.out, tok.kind) {
                self.emit_space()
            } else {
                self
            };
            spaced.emit_str(token_text(tok.kind), tok.line, tok.col)
        }
    }

    /// Back to a place where the output has been.
    pub open spec fn truncate(self, at: OutPos) -> StateV {
        if at.chars <= self.out.len() {
            StateV {
                out: self.out.take(at.chars as int),
                out_len: at.bytes,
                line_map: self.line_map.truncated(at.bytes),
                ..self
            }
        } else {
            StateV { line_map: self.line_map.truncated(at.bytes), ..self }
        }
    }

    /// Counts a token; too many of them, or too much output, is an error.
    pub open spec fn count_token(self, line: u32) -> (StateV, Result<(), ErrorV>) {
        let counted = StateV {
            tokens: if self.tokens == u64::MAX {
                u64::MAX
            } else {
                (self.tokens + 1) as u64
            },
            ..self
        };
        let budget = "preprocessed token budget exceeded ("@ + decimal_of(
            self.cfg.max_tokens as nat,
        ) + ")"@;
        let cap = "preprocessed output exceeded "@ + decimal_of(self.cfg.max_bytes as nat)
            + " bytes"@;
        if counted.tokens > self.cfg.max_tokens {
            (counted.error(line, budget), Err(ErrorV::Message { message: budget }))
        } else if counted.out_len > self.cfg.max_bytes {
            (counted.error(line, cap), Err(ErrorV::Message { message: cap }))
        } else {
            (counted, Ok(()))
        }
    }

    /// The warning that expansions nest too deeply, given once.
    pub open spec fn too_deep(self, line: u32) -> StateV {
        if self.warned {
            self
        } else {
            StateV {
                warned: true,
                ..self.warn(
                    line,
                    "macro expansion depth exceeded (256); skipping further expansion"@,
                )
            }
        }
    }

    /// A header that is not expanded again, noted for the one that is.
    pub open spec fn note_skip(self, at: OutPos, path: Seq<char>) -> StateV {
        if self.frames.len() == 0 {
            self
        } else {
            StateV {
                frames: self.frames.drop_last().push(self.frames.last().push(SkipV { at, path })),
                ..self
            }
        }
    }

    pub open spec fn note_missing(self, path: Seq<char>) -> StateV {
        if self.cfg.tree.contains_key(path) {
            self
        } else {
            StateV { missing: with_name(self.missing, path), ..self }
        }
    }

    /// An expansion in place of the header itself.
    pub open spec fn replay(self, canonical: Seq<char>, entry: ExpansionV) -> StateV {
        if !self.cfg.inline {
            let ran = self.run_ops(entry.ops);
            StateV { guard: with_names(with_name(ran.guard, canonical), entry.files), ..ran }
        } else if sat_usize(self.out_len + byte_len(entry.text)) > self.cfg.max_bytes {
            let warned = self.warn(
                1,
                "skipping cached include "@ + canonical + " (would exceed "@ + decimal_of(
                    self.cfg.max_bytes as nat,
                ) + "-byte output cap)"@,
            );
            StateV { guard: with_name(warned.guard, canonical), ..warned }
        } else {
            let ran = StateV {
                out: self.out + entry.text,
                out_len: sat_usize(self.out_len + byte_len(entry.text)),
                ..self
            }.run_ops(entry.ops);
            StateV {
                line_map: if self.cfg.track {
                    ran.line_map.interned_all(entry.line_map.files).spliced(
                        entry.line_map.entries,
                        self.out_len,
                        ran.line_map.indices(entry.line_map.files),
                    )
                } else {
                    ran.line_map
                },
                guard: with_names(ran.guard, entry.files),
                ..ran
            }
        }
    }

    /// Keeps an expansion unless the path has one.
    pub open spec fn keep(self, path: Seq<char>, entry: ExpansionV) -> StateV {
        if self.expansion(path) is Some {
            self
        } else {
            StateV { added: self.added.push((path, entry)), ..self }
        }
    }
}

/// The state of a run.
pub struct PreprocessorState<'a> {
    pub opts: &'a PreprocessOptions,
    pub macros: LocalMacros<'a>,
    pub fallback_macros: StringHashSet,
    pub included_guard: Vec<String>,
    pub conditional_stack: Vec<CondFrame>,
    pub output: Vec<char>,
    pub output_len: usize,
    pub line_map: LineMap,
    pub diagnostics: Vec<Diagnostic>,
    pub current_file: String,
    pub emitted_bytes: StringHashMap<usize>,
    pub expansion_limit_warned: bool,
    pub tokens_processed: u64,
    pub cache_frames: Vec<Vec<Skip>>,
    pub macro_ops: Vec<MacroOp>,
    pub shared_ops: Vec<MacroOp>,
    pub added: Vec<(String, IncludeExpansion)>,
    pub missing: Vec<String>,
}

impl<'a> View for PreprocessorState<'a> {
    type V = StateV;

    open spec fn view(&self) -> StateV {
        StateV {
            cfg: config_of(*self.opts),
            macros: self.macros@,
            fallbacks: self.fallback_macros@,
            guard: names_view(self.included_guard@),
            conds: self.conditional_stack@,
            out: self.output@,
            out_len: self.output_len,
            line_map: self.line_map@,
            diags: diags_view(self.diagnostics@),
            file: self.current_file@,
            emitted: self.emitted_bytes@,
            warned: self.expansion_limit_warned,
            tokens: self.tokens_processed,
            frames: frames_view(self.cache_frames@),
            ops: ops_view(self.macro_ops@),
            shared_ops: ops_view(self.shared_ops@),
            added: added_view(self.added@),
            missing: names_view(self.missing@),
        }
    }
}

/// `a + b`, at most `usize::MAX`.
pub fn add_usize(a: usize, b: usize) -> (r: usize)
    ensures
        r == sat_usize(a + b),
{
    if a > usize::MAX - b {
        usize::MAX
    } else {
        a + b
    }
}

/// The length of a text in bytes.
pub fn byte_count(text: &Vec<char>) -> (r: usize)
    ensures
        r == sat_usize(byte_len(text@) as int),
{
    let mut n: usize = 0;
    let mut i: usize = 0;
    while i < text.len()
        invariant
            i <= text@.len(),
            n == sat_usize(byte_len(text@.take(i as int)) as int),
        decreases text@.len() - i,
    {
        n = add_usize(n, char_width(text[i]));
        assert(text@.take(i + 1).drop_last() =~= text@.take(i as int));
        i = i + 1;
    }
    assert(text@.take(i as int) =~= text@);
    n
}

/// Appends characters.
pub fn push_chars(out: &mut Vec<char>, text: &Vec<char>)
    ensures
        final(out)@ == old(out)@ + text@,
{
    let ghost start = out@;
    let mut i: usize = 0;
    while i < text.len()
        invariant
            i <= text@.len(),
            out@ == start + text@.take(i as int),
        decreases text@.len() - i,
    {
        out.push(text[i]);
        assert(out@ =~= start + text@.take(i + 1));
        i = i + 1;
    }
    assert(text@.take(i as int) =~= text@);
}

pub fn needs_leading_space(out: &Vec<char>, kind: &TokenKind) -> (r: bool)
    ensures
        r == needs_space(out@, kind@),
{
    if out.len() == 0 {
        return false;
    }
    let last = out[out.len() - 1];
    if last == '\n' || last == ' ' {
        return false;
    }
    match kind {
        TokenKind::Punct(s) => {
            let s = s.as_str();
            if str_eq(s, ";") || str_eq(s, ",") || str_eq(s, "}") || str_eq(s, "::") || str_eq(
                s,
                ".",
            ) {
                true
            } else if str_eq(s, "&") || str_eq(s, "*") {
                last == '>'
            } else {
                false
            }
        },
        TokenKind::Newline => false,
        _ => !(last == '(' || last == '[' || last == '{' || last == '.' || last == ';'),
    }
}

pub fn token_to_string(kind: &TokenKind) -> (r: String)
    ensures
        r@ == token_text(kind@),
{
    match kind {
        TokenKind::Identifier(s) => s.clone(),
        TokenKind::Number(s) => s.clone(),
        TokenKind::String(s) => cat3("\"", s.as_str(), "\""),
        TokenKind::Char(s) => cat3("'", s.as_str(), "'"),
        TokenKind::Punct(s) => s.clone(),
        TokenKind::Hash => owned("#"),
        TokenKind::Newline => owned("\n"),
        TokenKind::Eof => {
            let r = String::new();
            assert(r@ =~= Seq::<char>::empty());
            r
        },
    }
}

impl<'a> PreprocessorState<'a> {
    pub fn is_defined_for_conditionals(&self, name: &str) -> (r: bool)
        ensures
            r == self@.is_defined(name@),
    {
        self.macros.contains_key(name) && !self.fallback_macros.contains(name)
    }

    fn log_op(&mut self, op: &MacroOp)
        ensures
            final(self)@ == (StateV {
                ops: if old(self)@.frames.len() > 0 {
                    old(self)@.ops.push(op@)
                } else {
                    old(self)@.ops
                },
                shared_ops: if old(self)@.cfg.accumulate {
                    old(self)@.shared_ops.push(op@)
                } else {
                    old(self)@.shared_ops
                },
                ..old(self)@
            }),
            final(self).opts == old(self).opts,
    {
        if self.cache_frames.len() > 0 {
            push_op(&mut self.macro_ops, op.clone());
        }
        if self.opts.accumulate_macros && self.opts.shared_macros.is_some() {
            push_op(&mut self.shared_ops, op.clone());
        }
    }

    pub fn insert_macro(&mut self, name: String, def: MacroDef)
        ensures
            final(self)@ == old(self)@.run_op(MacroOpV::Define(name@, def@)),
            final(self).opts == old(self).opts,
    {
        let op = MacroOp::Define(name.clone(), def.clone());
        self.log_op(&op);
        self.fallback_macros.remove(name.as_str());
        self.macros.insert(name, def);
    }

    pub fn remove_macro(&mut self, name: &str)
        ensures
            final(self)@ == old(self)@.run_op(MacroOpV::Undef(name@)),
            final(self).opts == old(self).opts,
    {
        let op = MacroOp::Undef(owned(name));
        self.log_op(&op);
        self.fallback_macros.remove(name);
        self.macros.remove(name);
    }

    /// Runs the macro directives of a cached header.
    pub fn replay_macro_delta(&mut self, ops: &Vec<MacroOp>)
        ensures
            final(self)@ == old(self)@.run_ops(ops_view(ops@)),
            final(self).opts == old(self).opts,
    {
        let ghost start = self@;
        let ghost all = ops_view(ops@);
        let mut i: usize = 0;
        assert(all.take(0) =~= Seq::<MacroOpV>::empty());
        while i < ops.len()
            invariant
                i <= ops@.len(),
                all == ops_view(ops@),
                self.opts == old(self).opts,
                self@ == start.run_ops(all.take(i as int)),
            decreases ops@.len() - i,
        {
            match &ops[i] {
                MacroOp::Undef(name) => self.remove_macro(name.as_str()),
                MacroOp::Define(name, def) => self.insert_macro(name.clone(), def.clone()),
            }
            proof {
                assert(all.take(i + 1).drop_last() =~= all.take(i as int));
                assert(all.take(i + 1).last() == ops@[i as int]@);
            }
            i = i + 1;
        }
        assert(all.take(i as int) =~= all);
    }

    pub fn is_active(&self) -> (r: bool)
        ensures
            r == self@.is_active(),
    {
        let n = self.conditional_stack.len();
        n == 0 || self.conditional_stack[n - 1].active
    }

    pub fn push_cond(&mut self, cond: bool)
        ensures
            final(self)@ == old(self)@.push_cond(cond),
            final(self).opts == old(self).opts,
    {
        let parent_active = self.is_active();
        let active = parent_active && cond;
        self.conditional_stack.push(
            CondFrame { parent_active, active, taken: active, else_seen: false },
        );
    }

    /// Puts the innermost `#if` in another state.
    pub fn set_cond(&mut self, frame: CondFrame)
        requires
            old(self)@.conds.len() > 0,
        ensures
            final(self)@ == old(self)@.with_cond(frame),
            final(self).opts == old(self).opts,
    {
        self.conditional_stack.pop();
        self.conditional_stack.push(frame);
    }

    fn push_diag(&mut self, severity: DiagnosticSeverity, line: u32, message: String)
        ensures
            final(self)@ == old(self)@.push_diag(severity, line, message@),
            final(self).opts == old(self).opts,
    {
        let file = Some(self.current_file.clone());
        let ghost before = self.diagnostics@;
        let d = Diagnostic { severity, file, line, message };
        self.diagnostics.push(d);
        assert(diags_view(self.diagnostics@) =~= diags_view(before).push(d@));
    }

    pub fn warn(&mut self, line: u32, message: String)
        ensures
            final(self)@ == old(self)@.warn(line, message@),
            final(self).opts == old(self).opts,
    {
        self.push_diag(DiagnosticSeverity::Warning, line, message);
    }

    pub fn error(&mut self, line: u32, message: String) -> (r: PreprocessError)
        ensures
            final(self)@ == old(self)@.error(line, message@),
            final(self).opts == old(self).opts,
            r@ == (ErrorV::Message { message: message@ }),
    {
        let copy = message.clone();
        self.push_diag(DiagnosticSeverity::Error, line, message);
        PreprocessError::Message { message: copy }
    }

    pub fn emit_str(&mut self, text: &str, line: u32, col: u32)
        ensures
            final(self)@ == old(self)@.emit_str(text@, line, col),
            final(self).opts == old(self).opts,
    {
        let offset = self.output_len;
        let chars = chars_of(text);
        push_chars(&mut self.output, &chars);
        self.output_len = add_usize(self.output_len, byte_count(&chars));
        if self.opts.track_line_map {
            let fid = self.line_map.intern_file(self.current_file.as_str());
            self.line_map.push(offset, fid, line, col);
        }
    }

    pub fn emit_token(&mut self, tok: &Token)
        ensures
            final(self)@ == old(self)@.emit_token(tok@),
            final(self).opts == old(self).opts,
    {
        if matches!(tok.kind, TokenKind::Eof) {
            return ;
        }
        if !matches!(tok.kind, TokenKind::Newline) && needs_leading_space(&self.output, &tok.kind) {
            self.output.push(' ');
            self.output_len = add_usize(self.output_len, 1);
            assert(self@ =~= old(self)@.emit_space());
        }
        let text = token_to_string(&tok.kind);
        self.emit_str(text.as_str(), tok.line, tok.col);
    }

    pub fn truncate_output(&mut self, at: OutPos)
        ensures
            final(self)@ == old(self)@.truncate(at),
            final(self).opts == old(self).opts,
    {
        if at.chars <= self.output.len() {
            self.output.truncate(at.chars);
            self.output_len = at.bytes;
            assert(self.output@ =~= old(self).output@.take(at.chars as int));
        }
        self.line_map.truncate_at(at.bytes);
    }

    pub fn output_pos(&self) -> (r: OutPos)
        ensures
            r == self@.pos(),
    {
        OutPos { chars: self.output.len(), bytes: self.output_len }
    }

    pub fn check_resource_limits(&mut self, line: u32) -> (r: Result<(), PreprocessError>)
        ensures
            final(self)@ == old(self)@.count_token(line).0,
            final(self).opts == old(self).opts,
            match r {
                Ok(_) => old(self)@.count_token(line).1 is Ok,
                Err(e) => old(self)@.count_token(line).1 == Err::<(), ErrorV>(e@),
            },
    {
        if self.tokens_processed < u64::MAX {
            self.tokens_processed = self.tokens_processed + 1;
        }
        if self.tokens_processed > self.opts.max_expanded_tokens {
            let message = cat3(
                "preprocessed token budget exceeded (",
                decimal(self.opts.max_expanded_tokens).as_str(),
                ")",
            );
            return Err(self.error(line, message));
        }
        if self.output_len > self.opts.max_output_bytes {
            let message = cat3(
                "preprocessed output exceeded ",
                decimal(self.opts.max_output_bytes as u64).as_str(),
                " bytes",
            );
            return Err(self.error(line, message));
        }
        Ok(())
    }

    pub fn warn_too_deep(&mut self, line: u32)
        ensures
            final(self)@ == old(self)@.too_deep(line),
            final(self).opts == old(self).opts,
    {
        if !self.expansion_limit_warned {
            self.warn(
                line,
                owned("macro expansion depth exceeded (256); skipping further expansion"),
            );
            self.expansion_limit_warned = true;
        }
    }

    pub fn note_skip(&mut self, at: OutPos, path: String)
        ensures
            final(self)@ == old(self)@.note_skip(at, path@),
            final(self).opts == old(self).opts,
    {
        if let Some(mut frame) = self.cache_frames.pop() {
            let ghost before = frame@;
            let skip = Skip { at, path };
            let ghost s = skip@;
            frame.push(skip);
            assert(skips_view(frame@) =~= skips_view(before).push(s));
            self.cache_frames.push(frame);
            assert(self@.frames =~= old(self)@.frames.drop_last().push(
                old(self)@.frames.last().push(s),
            ));
        } else {
            assert(self@.frames =~= old(self)@.frames);
        }
    }

    pub fn note_missing(&mut self, path: &str)
        ensures
            final(self)@ == old(self)@.note_missing(path@),
            final(self).opts == old(self).opts,
    {
        if self.opts.tree.get(path).is_none() {
            add_name(&mut self.missing, path);
        }
    }

    pub fn cached_expansion(&self, path: &str) -> (r: Option<IncludeExpansion>)
        ensures
            match r {
                Some(e) => self@.expansion(path@) == Some(e@),
                None => self@.expansion(path@) is None,
            },
    {
        let base = match &self.opts.include_expansion_cache {
            Some(c) => c,
            None => {
                return None;
            },
        };
        match base.get(path) {
            Some(e) => {
                return Some(e.clone());
            },
            None => {},
        }
        let mut i: usize = 0;
        while i < self.added.len()
            invariant
                i <= self.added@.len(),
                find_added(self@.added, path@, i as int) == find_added(self@.added, path@, 0),
                self@.expansion(path@) == find_added(self@.added, path@, 0),
            decreases self.added@.len() - i,
        {
            assert(self@.added[i as int] == (self.added@[i as int].0@, self.added@[i as int].1@));
            if str_eq(self.added[i].0.as_str(), path) {
                return Some(self.added[i].1.clone());
            }
            i = i + 1;
        }
        None
    }

    /// Puts a cached expansion in place of a header.
    pub fn splice_cached(&mut self, canonical: &str, entry: &IncludeExpansion)
        ensures
            final(self)@ == old(self)@.replay(canonical@, entry@),
            final(self).opts == old(self).opts,
    {
        if !self.opts.inline_include_bodies {
            self.replay_macro_delta(&entry.ops);
            add_name(&mut self.included_guard, canonical);
            add_names(&mut self.included_guard, &entry.files);
            return ;
        }
        let text = chars_of(entry.text.as_str());
        let end = add_usize(self.output_len, byte_count(&text));
        if end > self.opts.max_output_bytes {
            let message = cat2(
                cat3("skipping cached include ", canonical, " (would exceed ").as_str(),
                cat2(
                    decimal(self.opts.max_output_bytes as u64).as_str(),
                    "-byte output cap)",
                ).as_str(),
            );
            proof {
                let a = "skipping cached include "@ + canonical@ + " (would exceed "@;
                let n = decimal_of(self.opts.max_output_bytes as nat);
                assert(a + (n + "-byte output cap)"@) =~= a + n + "-byte output cap)"@);
            }
            self.warn(1, message);
            add_name(&mut self.included_guard, canonical);
            return ;
        }
        let offset = self.output_len;
        push_chars(&mut self.output, &text);
        self.output_len = end;
        self.replay_macro_delta(&entry.ops);
        if self.opts.track_line_map {
            let remap = self.line_map.intern_files(&entry.line_map.files);
            self.line_map.splice(&entry.line_map, offset, &remap);
        }
        add_names(&mut self.included_guard, &entry.files);
    }

    /// Keeps an expansion unless the path has one.
    pub fn keep_expansion(&mut self, path: String, entry: IncludeExpansion)
        ensures
            final(self)@ == old(self)@.keep(path@, entry@),
            final(self).opts == old(self).opts,
    {
        if self.cached_expansion(path.as_str()).is_none() {
            let ghost before = self.added@;
            self.added.push((path, entry));
            assert(added_view(self.added@) =~= added_view(before).push((path@, entry@)));
        }
    }
}

impl Clone for IncludeExpansion {
    fn clone(&self) -> (r: Self)
        ensures
            r@ == self@,
    {
        let ops = clone_ops(&self.ops, 0);
        assert(ops_view(self.ops@).skip(0) =~= ops_view(self.ops@));
        IncludeExpansion {
            text: self.text.clone(),
            files: clone_names(&self.files),
            line_map: self.line_map.clone(),
            ops,
        }
    }
}

} // verus!
