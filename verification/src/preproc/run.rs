//! Running the preprocessor on a file or on a text.

use crate::ir::program::pairs_view;
use crate::preproc::builtins::{fallback, fallback_macro, FALLBACK_COUNT};
use crate::preproc::lexer::{lex, Lexer};
use crate::preproc::line_map::{LineMap, LineMapV};
use crate::preproc::macros::{
    body_of, lex_macro_body, ops_view, LocalMacros, MacroDef, MacroOp, MacroOpV, MacroV,
};
use crate::preproc::options::{added_view, ExpansionV, IncludeExpansion, PreprocessOptions};
use crate::preproc::state::{
    diags_view, DiagV, Diagnostic, ErrorV, OptionsV, PreprocessError, PreprocessorState, StateV,
};
use crate::text::{cat2, names_view, owned, string_of};
use vstd::hash_map::StringHashMap;
use vstd::hash_set::StringHashSet;
use vstd::prelude::*;

verus! {

broadcast use crate::text::take_push;

/// What a run comes to.
pub struct PreprocessResult {
    pub output: String,
    pub line_map: LineMap,
    pub diagnostics: Vec<Diagnostic>,
    /// Canonical paths of the files that went into the run, in the order in
    /// which they were first met.
    pub included_headers: Vec<String>,
    /// What the run defined and undefined in the shared table.
    pub macro_updates: Vec<MacroOp>,
    /// Expansions that the cache did not have.
    pub new_expansions: Vec<(String, IncludeExpansion)>,
    /// Paths that were looked for and of which the source tree says nothing.
    pub missing: Vec<String>,
}

/// The mathematical form of a [`PreprocessResult`].
#[verifier::ext_equal]
pub struct ResultV {
    pub output: Seq<char>,
    pub line_map: LineMapV,
    pub diagnostics: Seq<DiagV>,
    pub included_headers: Seq<Seq<char>>,
    pub macro_updates: Seq<MacroOpV>,
    pub new_expansions: Seq<(Seq<char>, ExpansionV)>,
    pub missing: Seq<Seq<char>>,
}

impl View for PreprocessResult {
    type V = ResultV;

    open spec fn view(&self) -> ResultV {
        ResultV {
            output: self.output@,
            line_map: self.line_map@,
            diagnostics: diags_view(self.diagnostics@),
            included_headers: names_view(self.included_headers@),
            macro_updates: ops_view(self.macro_updates@),
            new_expansions: added_view(self.new_expansions@),
            missing: names_view(self.missing@),
        }
    }
}

/// Nothing read yet, nothing defined but the shared table.
pub open spec fn blank_state(opts: OptionsV, file: Seq<char>) -> StateV {
    StateV {
        cfg: opts.cfg,
        macros: match opts.shared {
            Some(t) => t,
            None => Map::empty(),
        },
        fallbacks: Set::empty(),
        guard: Seq::empty(),
        conds: Seq::empty(),
        out: Seq::empty(),
        out_len: 0,
        line_map: LineMapV::empty(),
        diags: Seq::empty(),
        file,
        emitted: Map::empty(),
        warned: false,
        tokens: 0,
        frames: Seq::empty(),
        ops: Seq::empty(),
        shared_ops: Seq::empty(),
        added: Seq::empty(),
        missing: Seq::empty(),
    }
}

impl StateV {
    /// With the first `n` definitions made, but for those of names that
    /// `table` has.
    pub open spec fn with_defines(
        self,
        defines: Seq<(Seq<char>, Seq<char>)>,
        n: int,
        table: Map<Seq<char>, MacroV>,
    ) -> StateV
        decreases n,
    {
        if n <= 0 {
            self
        } else {
            let before = self.with_defines(defines, n - 1, table);
            let (name, value) = defines[n - 1];
            if table.contains_key(name) {
                before
            } else {
                before.run_op(
                    MacroOpV::Define(name, MacroV::Object { replacement: body_of(value) }),
                )
            }
        }
    }

    /// With the first `n` fallbacks, but for those of names that have a
    /// definition.
    pub open spec fn with_fallbacks(self, n: int) -> StateV
        decreases n,
    {
        if n <= 0 {
            self
        } else {
            let before = self.with_fallbacks(n - 1);
            let (name, def) = fallback(n - 1);
            if before.macros.contains_key(name) {
                before
            } else {
                StateV {
                    macros: before.macros.insert(name, def),
                    fallbacks: before.fallbacks.insert(name),
                    ..before
                }
            }
        }
    }

    /// What the state comes to when nothing is left to be read.
    pub open spec fn result(self) -> ResultV {
        ResultV {
            output: self.out,
            line_map: self.line_map,
            diagnostics: self.diags,
            included_headers: self.guard,
            macro_updates: self.shared_ops,
            new_expansions: self.added,
            missing: self.missing,
        }
    }
}

/// The state before the first token: definitions from the command line,
/// which give way to those of a shared table, and the fallbacks, which give
/// way to both.
pub open spec fn initial_state(opts: OptionsV, file: Seq<char>) -> StateV {
    let blank = blank_state(opts, file);
    blank.with_defines(opts.defines, opts.defines.len() as int, blank.macros).with_fallbacks(
        FALLBACK_COUNT as int,
    )
}

/// How many files may be nested in the first one.
pub open spec fn initial_room(opts: OptionsV) -> nat {
    if opts.cfg.max_depth > 0 {
        (opts.cfg.max_depth - 1) as nat
    } else {
        0
    }
}

/// What a text comes to.
pub open spec fn string_result(
    source: Seq<char>,
    file: Seq<char>,
    opts: OptionsV,
) -> ResultV {
    let (st, r) = initial_state(opts, file).tokens(lex(source), 0, initial_room(opts), 0);
    match r {
        Err(e) => st.warn(1, "preprocess stopped: "@ + e.text()).result(),
        Ok(_) => st.result(),
    }
}

/// What a file comes to.
#[verifier::opaque]
pub open spec fn file_result(path: Seq<char>, opts: OptionsV) -> Result<ResultV, ErrorV> {
    let (st, r) = initial_state(opts, path).file(path, initial_room(opts), 0);
    match r {
        Err(e) => Err(e),
        Ok(_) => Ok(st.result()),
    }
}

impl<'a> PreprocessorState<'a> {
    /// The state before the first token.
    pub fn new(opts: &'a PreprocessOptions, file: &str) -> (r: PreprocessorState<'a>)
        ensures
            r@ == initial_state(opts@, file@),
    {
        let shared = match &opts.shared_macros {
            Some(t) => Some(t),
            None => None,
        };
        let mut state = PreprocessorState {
            opts,
            macros: LocalMacros::new(shared),
            fallback_macros: StringHashSet::new(),
            included_guard: Vec::new(),
            conditional_stack: Vec::new(),
            output: Vec::new(),
            output_len: 0,
            line_map: LineMap::new(),
            diagnostics: Vec::new(),
            current_file: owned(file),
            emitted_bytes: StringHashMap::new(),
            expansion_limit_warned: false,
            tokens_processed: 0,
            cache_frames: Vec::new(),
            macro_ops: Vec::new(),
            shared_ops: Vec::new(),
            added: Vec::new(),
            missing: Vec::new(),
        };
        assert(state@ =~= blank_state(opts@, file@)) by {
            let b = blank_state(opts@, file@);
            assert(state@.guard =~= b.guard);
            assert(state@.conds =~= b.conds);
            assert(state@.out =~= b.out);
            assert(state@.diags =~= b.diags);
            assert(state@.frames =~= b.frames);
            assert(state@.ops =~= b.ops);
            assert(state@.shared_ops =~= b.shared_ops);
            assert(state@.added =~= b.added);
            assert(state@.missing =~= b.missing);
        }
        state.init_cli_defines();
        state.install_builtin_macros();
        state
    }

    fn init_cli_defines(&mut self)
        requires
            old(self)@.macros == (match old(self).opts.shared_macros {
                Some(t) => t@,
                None => Map::empty(),
            }),
        ensures
            final(self)@ == old(self)@.with_defines(
                pairs_view(old(self).opts.defines@),
                old(self).opts.defines@.len() as int,
                old(self)@.macros,
            ),
            final(self).opts == old(self).opts,
    {
        let opts = self.opts;
        let ghost start = self@;
        let mut i: usize = 0;
        while i < opts.defines.len()
            invariant
                i <= opts.defines@.len(),
                self.opts == opts,
                opts == old(self).opts,
                start.macros == (match opts.shared_macros {
                    Some(t) => t@,
                    None => Map::empty(),
                }),
                self@ == start.with_defines(pairs_view(opts.defines@), i as int, start.macros),
            decreases opts.defines@.len() - i,
        {
            assert(pairs_view(opts.defines@)[i as int] == (
                opts.defines@[i as int].0@,
                opts.defines@[i as int].1@,
            ));
            let known = match &opts.shared_macros {
                Some(t) => t.contains_key(opts.defines[i].0.as_str()),
                None => false,
            };
            if !known {
                let replacement = lex_macro_body(opts.defines[i].1.as_str());
                self.insert_macro(opts.defines[i].0.clone(), MacroDef::Object { replacement });
            }
            i = i + 1;
        }
    }

    fn install_builtin_macros(&mut self)
        ensures
            final(self)@ == old(self)@.with_fallbacks(FALLBACK_COUNT as int),
    {
        let ghost start = self@;
        let mut k: usize = 0;
        while k < FALLBACK_COUNT
            invariant
                k <= FALLBACK_COUNT,
                self@ == start.with_fallbacks(k as int),
            decreases FALLBACK_COUNT - k,
        {
            let (name, def) = fallback_macro(k);
            if !self.macros.contains_key(name.as_str()) {
                self.fallback_macros.insert(name.clone());
                self.macros.insert(name, def);
            }
            k = k + 1;
        }
    }

    fn finish(self) -> (r: PreprocessResult)
        ensures
            r@ == self@.result(),
    {
        let output = string_of(&self.output, 0, self.output.len());
        assert(output@ =~= self.output@);
        PreprocessResult {
            output,
            line_map: self.line_map,
            diagnostics: self.diagnostics,
            included_headers: self.included_guard,
            macro_updates: self.shared_ops,
            new_expansions: self.added,
            missing: self.missing,
        }
    }
}

fn room_of(opts: &PreprocessOptions) -> (r: usize)
    ensures
        r == initial_room(opts@),
{
    if opts.max_include_depth > 0 {
        opts.max_include_depth - 1
    } else {
        0
    }
}

/// Preprocesses a file of the source tree.
pub fn preprocess_file(path: &str, opts: &PreprocessOptions) -> (r: Result<
    PreprocessResult,
    PreprocessError,
>)
    ensures
        match r {
            Ok(result) => file_result(path@, opts@) == Ok::<ResultV, ErrorV>(result@),
            Err(e) => file_result(path@, opts@) == Err::<ResultV, ErrorV>(e@),
        },
{
    proof {
        reveal(file_result);
    }
    let mut state = PreprocessorState::new(opts, path);
    match state.process_file(path, room_of(opts), 0) {
        Ok(_) => Ok(state.finish()),
        Err(e) => Err(e),
    }
}

/// Preprocesses a text as if it were in `file`.
pub fn preprocess_string(source: &str, file: &str, opts: &PreprocessOptions) -> (r:
    PreprocessResult)
    ensures
        r@ == string_result(source@, file@, opts@),
{
    let mut state = PreprocessorState::new(opts, file);
    let tokens = Lexer::new(source).tokenize();
    match state.process_tokens(tokens.as_slice(), room_of(opts), 0) {
        Ok(_) => {},
        Err(e) => {
            state.warn(1, cat2("preprocess stopped: ", e.text().as_str()));
        },
    }
    state.finish()
}

} // verus!
