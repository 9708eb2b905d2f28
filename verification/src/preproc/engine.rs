//! The preprocessor at work.

use crate::ir::diagnostic::DiagnosticSeverity;
use crate::paths::{directory, file_name, file_name_of, is_header, join};
use crate::preproc::condition::eval_pp_tokens;
use crate::preproc::directives::{
    alias_va_args, at_beginning_of_line, at_line_end, find_line_end, find_non_newline,
    long_line_end, next_non_newline_is, parameter_list_open, parse_cond_macro_args,
    parse_include_header, parse_macro_args, parse_macro_param_list, read_long_line,
    read_replacement_list, skip_long_line, skip_to_newline, Args, Params,
};
use crate::preproc::lexer::Lexer;
use crate::preproc::macros::{clone_ops, ops_view, MacroDef, MacroOp, MacroOpV};
use crate::preproc::options::IncludeExpansion;
use crate::preproc::semantics::{
    contributing, defined_value, has_content, line_at, quoted, UseV, MAX_CONDITION_STEPS,
    MAX_CONDITION_TOKENS,
};
use crate::preproc::state::{
    diags_view, frames_view, skips_view, CondFrame, Diagnostic, ErrorV, OutPos, PreprocessError,
    PreprocessorState, Skip, SkipV,
};
use crate::preproc::substitute::{
    apply_concatenation, expansion, is_punct_at, kind_at, paint_replacement, substitute_macro,
    CallV,
};
use crate::preproc::token::{
    clone_tokens, push_clones, push_token, token_lists_view, tokens_view, KindV, Token, TokenKind,
    TokenV,
};
use crate::text::{
    add_name, add_names, cat2, cat3, chars_of, clone_names, contains_name, decimal, is_white,
    names_view, owned, str_eq, string_of, subrange_push, take_push, white,
};
use vstd::prelude::*;

verus! {

broadcast use {subrange_push, take_push};

/// The macro that a token calls.
enum MacroUse {
    Nothing,
    Object { replacement: Vec<Token> },
    Function { name: String, params: Vec<String>, body: Vec<Token>, variadic: bool },
}

impl View for MacroUse {
    type V = UseV;

    closed spec fn view(&self) -> UseV {
        match *self {
            MacroUse::Nothing => UseV::Nothing,
            MacroUse::Object { replacement } => UseV::Object {
                replacement: tokens_view(replacement@),
            },
            MacroUse::Function { name, params, body, variadic } => UseV::Function {
                name: name@,
                params: names_view(params@),
                body: tokens_view(body@),
                variadic,
            },
        }
    }
}

/// The line that the token at `i` is on, 1 where there is none.
fn line_of(tokens: &[Token], i: usize) -> (r: u32)
    ensures
        r == line_at(tokens_view(tokens@), i as int),
{
    if i < tokens.len() {
        tokens[i].line
    } else {
        1
    }
}

/// `text` in quotes.
fn quote(text: &str) -> (r: String)
    ensures
        r@ == quoted(text@),
{
    cat3("\"", text, "\"")
}

/// The name at `i`, if an identifier is there.
fn ident_at(tokens: &[Token], i: usize) -> (r: Option<String>)
    ensures
        match r {
            Some(n) => kind_at(tokens_view(tokens@), i as int) == Some(KindV::Identifier(n@)) && i
                < tokens@.len(),
            None => kind_at(tokens_view(tokens@), i as int) is None || !((kind_at(
                tokens_view(tokens@),
                i as int,
            )->0) is Identifier),
        },
        tokens@.len() <= usize::MAX,
{
    if i < tokens.len() {
        match &tokens[i].kind {
            TokenKind::Identifier(n) => Some(n.clone()),
            _ => None,
        }
    } else {
        None
    }
}

/// What a call of a function-like macro comes to before it is scanned again.
fn expand_call(
    name: &str,
    origin: &Token,
    body: &[Token],
    params: &Vec<String>,
    args: &Vec<Vec<Token>>,
    variadic: bool,
) -> (r: Vec<Token>)
    ensures
        tokens_view(r@) == expansion(
            CallV {
                name: name@,
                origin: origin@,
                body: tokens_view(body@),
                params: names_view(params@),
                args: token_lists_view(args@),
                variadic,
            },
        ),
{
    apply_concatenation(substitute_macro(name, origin, body, params, args, variadic))
}

/// The tokens of `work` with those at `from..to` replaced.
fn splice_tokens(work: Vec<Token>, from: usize, to: usize, middle: Vec<Token>) -> (r: Vec<Token>)
    requires
        from <= to <= work@.len(),
    ensures
        tokens_view(r@) == tokens_view(work@).take(from as int) + tokens_view(middle@)
            + tokens_view(work@).skip(to as int),
{
    let mut out = work;
    let mut new = middle;
    let mut rest = out.split_off(to);
    out.truncate(from);
    out.append(&mut new);
    out.append(&mut rest);
    assert(tokens_view(out@) =~= tokens_view(work@).take(from as int) + tokens_view(middle@)
        + tokens_view(work@).skip(to as int));
    out
}

fn content_present(text: &str) -> (r: bool)
    ensures
        r == has_content(text@),
{
    let c = chars_of(text);
    let mut i: usize = 0;
    while i < c.len()
        invariant
            c@ == text@,
            i <= c@.len(),
            forall|j: int| 0 <= j < i ==> is_white(#[trigger] text@[j]),
        decreases c@.len() - i,
    {
        if !white(c[i]) {
            assert(!is_white(text@[i as int]));
            return true;
        }
        i = i + 1;
    }
    false
}

fn has_backslash(text: &Vec<char>) -> (r: bool)
    ensures
        r == text@.contains('\\'),
{
    let mut i: usize = 0;
    while i < text.len()
        invariant
            i <= text@.len(),
            forall|j: int| 0 <= j < i ==> text@[j] != '\\',
        decreases text@.len() - i,
    {
        if text[i] == '\\' {
            assert(text@[i as int] == '\\');
            return true;
        }
        i = i + 1;
    }
    false
}

impl<'a> PreprocessorState<'a> {
    /// The macro that the token at `i` calls.
    fn use_at(&self, tokens: &[Token], i: usize) -> (r: MacroUse)
        requires
            i < tokens@.len(),
        ensures
            r@ == self@.use_at(tokens_view(tokens@), i as int),
    {
        let n = tokens.len();
        let tok = &tokens[i];
        let name = match &tok.kind {
            TokenKind::Identifier(s) => s,
            _ => {
                return MacroUse::Nothing;
            },
        };
        if tok.is_hidden(name.as_str()) {
            return MacroUse::Nothing;
        }
        match self.macros.get(name.as_str()) {
            None => MacroUse::Nothing,
            Some(MacroDef::Object { replacement }) => MacroUse::Object {
                replacement: paint_replacement(replacement.as_slice(), tok, name.as_str()),
            },
            Some(MacroDef::Function { params, replacement, variadic }) => {
                if next_non_newline_is(tokens, i + 1, "(") {
                    MacroUse::Function {
                        name: name.clone(),
                        params: clone_names(params),
                        body: clone_tokens(replacement.as_slice()),
                        variadic: *variadic,
                    }
                } else {
                    MacroUse::Nothing
                }
            },
        }
    }

    fn unterminated(&mut self, line: u32) -> (r: PreprocessError)
        ensures
            final(self)@ == old(self)@.unterminated(line).0,
            old(self)@.unterminated(line).1 == Err::<(), ErrorV>(r@),
    {
        self.error(line, owned("unterminated macro argument list"))
    }

    /// Scans the tokens of a replacement.
    fn expand_tokens_no_directives(&mut self, tokens: &[Token], depth: u32) -> (r: Result<
        (),
        PreprocessError,
    >)
        requires
            depth <= 256,
        ensures
            final(self)@ == old(self)@.expand(tokens_view(tokens@), 0, depth as int).0,
            match r {
                Ok(_) => old(self)@.expand(tokens_view(tokens@), 0, depth as int).1 is Ok,
                Err(e) => old(self)@.expand(tokens_view(tokens@), 0, depth as int).1 == Err::<
                    (),
                    ErrorV,
                >(e@),
            },
        decreases 256 - depth, tokens@.len(),
    {
        let ghost ts = tokens_view(tokens@);
        let ghost goal = self@.expand(ts, 0, depth as int);
        let mut i: usize = 0;
        while i < tokens.len()
            invariant
                depth <= 256,
                i <= tokens@.len(),
                ts == tokens_view(tokens@),
                self@.expand(ts, i as int, depth as int) == goal,
                goal == old(self)@.expand(ts, 0, depth as int),
            decreases tokens@.len() - i,
        {
            let n = tokens.len();
            match self.check_resource_limits(tokens[i].line) {
                Ok(_) => {},
                Err(e) => {
                    return Err(e);
                },
            }
            if matches!(tokens[i].kind, TokenKind::Eof) {
                return Ok(());
            }
            if !self.is_active() {
                i = i + 1;
                continue ;
            }
            if matches!(tokens[i].kind, TokenKind::Hash) {
                match ident_at(tokens, i + 1) {
                    Some(name) => {
                        let text = quote(name.as_str());
                        self.emit_str(text.as_str(), tokens[i + 1].line, tokens[i + 1].col);
                        i = i + 2;
                    },
                    None => {
                        self.emit_token(&tokens[i]);
                        i = i + 1;
                    },
                }
                continue ;
            }
            match self.use_at(tokens, i) {
                MacroUse::Nothing => {
                    self.emit_token(&tokens[i]);
                    i = i + 1;
                },
                MacroUse::Object { replacement } => {
                    if depth >= 256 {
                        self.warn_too_deep(tokens[i].line);
                        self.emit_token(&tokens[i]);
                        i = i + 1;
                    } else {
                        match self.expand_tokens_no_directives(replacement.as_slice(), depth + 1) {
                            Ok(_) => {},
                            Err(e) => {
                                return Err(e);
                            },
                        }
                        i = i + 1;
                    }
                },
                MacroUse::Function { name, params, body, variadic } => {
                    if depth >= 256 {
                        self.warn_too_deep(tokens[i].line);
                        self.emit_token(&tokens[i]);
                        i = i + 1;
                    } else {
                        match parse_macro_args(tokens, i + 1) {
                            Args::Unterminated { at } => {
                                return Err(self.unterminated(tokens[at].line));
                            },
                            Args::Good { args, end } => {
                                let expanded = expand_call(
                                    name.as_str(),
                                    &tokens[i],
                                    body.as_slice(),
                                    &params,
                                    &args,
                                    variadic,
                                );
                                match self.expand_tokens_no_directives(
                                    expanded.as_slice(),
                                    depth + 1,
                                ) {
                                    Ok(_) => {},
                                    Err(e) => {
                                        return Err(e);
                                    },
                                }
                                i = end;
                            },
                        }
                    }
                },
            }
        }
        Ok(())
    }

    /// Expands the macros on a line that names a header.
    fn expand_include_operand(&mut self, tokens: &[Token], depth: u32) -> (r: Result<
        Vec<Token>,
        PreprocessError,
    >)
        requires
            depth <= 256,
        ensures
            final(self)@ == old(self)@.include_operand(
                tokens_view(tokens@),
                0,
                Seq::empty(),
                depth as int,
            ).0,
            match r {
                Ok(out) => old(self)@.include_operand(
                    tokens_view(tokens@),
                    0,
                    Seq::empty(),
                    depth as int,
                ).1 == Ok::<Seq<TokenV>, ErrorV>(tokens_view(out@)),
                Err(e) => old(self)@.include_operand(
                    tokens_view(tokens@),
                    0,
                    Seq::empty(),
                    depth as int,
                ).1 == Err::<Seq<TokenV>, ErrorV>(e@),
            },
        decreases 256 - depth, tokens@.len(),
    {
        let ghost ts = tokens_view(tokens@);
        let ghost goal = self@.include_operand(ts, 0, Seq::empty(), depth as int);
        let mut out: Vec<Token> = Vec::new();
        let mut i: usize = 0;
        assert(tokens_view(out@) =~= Seq::<TokenV>::empty());
        while i < tokens.len()
            invariant
                depth <= 256,
                i <= tokens@.len(),
                ts == tokens_view(tokens@),
                self@.include_operand(ts, i as int, tokens_view(out@), depth as int) == goal,
                goal == old(self)@.include_operand(ts, 0, Seq::empty(), depth as int),
            decreases tokens@.len() - i,
        {
            let n = tokens.len();
            if matches!(tokens[i].kind, TokenKind::Newline) || matches!(
                tokens[i].kind,
                TokenKind::Eof
            ) {
                i = i + 1;
                continue ;
            }
            match self.use_at(tokens, i) {
                MacroUse::Nothing => {
                    push_token(&mut out, tokens[i].clone());
                    i = i + 1;
                },
                MacroUse::Object { replacement } => {
                    if depth >= 256 {
                        self.warn_too_deep(tokens[i].line);
                        push_token(&mut out, tokens[i].clone());
                        i = i + 1;
                    } else {
                        match self.expand_include_operand(replacement.as_slice(), depth + 1) {
                            Ok(nested) => {
                                push_clones(&mut out, nested.as_slice(), 0, nested.len());
                                assert(tokens_view(nested@).subrange(0, nested@.len() as int)
                                    =~= tokens_view(nested@));
                            },
                            Err(e) => {
                                return Err(e);
                            },
                        }
                        i = i + 1;
                    }
                },
                MacroUse::Function { name, params, body, variadic } => {
                    if depth >= 256 {
                        self.warn_too_deep(tokens[i].line);
                        push_token(&mut out, tokens[i].clone());
                        i = i + 1;
                    } else {
                        match parse_macro_args(tokens, i + 1) {
                            Args::Unterminated { at } => {
                                return Err(self.unterminated(tokens[at].line));
                            },
                            Args::Good { args, end } => {
                                let expanded = expand_call(
                                    name.as_str(),
                                    &tokens[i],
                                    body.as_slice(),
                                    &params,
                                    &args,
                                    variadic,
                                );
                                match self.expand_include_operand(expanded.as_slice(), depth + 1) {
                                    Ok(nested) => {
                                        push_clones(&mut out, nested.as_slice(), 0, nested.len());
                                        assert(tokens_view(nested@).subrange(
                                            0,
                                            nested@.len() as int,
                                        ) =~= tokens_view(nested@));
                                    },
                                    Err(e) => {
                                        return Err(e);
                                    },
                                }
                                i = end;
                            },
                        }
                    }
                },
            }
        }
        Ok(out)
    }

    /// The value of the `defined` at `i`, and how many tokens it takes.
    fn defined_operand(&self, toks: &[Token], i: usize) -> (r: (bool, usize))
        requires
            i < toks@.len(),
        ensures
            (r.0, r.1 as int) == defined_value(self@, tokens_view(toks@), i as int),
            1 <= r.1 <= 4,
            i + r.1 <= toks@.len(),
    {
        let n = toks.len();
        if is_punct_at(toks, i + 1, "(") {
            if n - i > 3 {
                match ident_at(toks, i + 2) {
                    Some(name) => {
                        if is_punct_at(toks, i + 3, ")") {
                            return (self.is_defined_for_conditionals(name.as_str()), 4);
                        }
                    },
                    None => {},
                }
            }
            return (false, 2);
        }
        match ident_at(toks, i + 1) {
            Some(name) => (self.is_defined_for_conditionals(name.as_str()), 2),
            None => (false, 1),
        }
    }

    /// Expands the macros of a condition; the line where they grow beyond
    /// the limits.
    fn expand_condition_tokens(&self, toks: Vec<Token>) -> (r: Result<Vec<Token>, u32>)
        ensures
            match r {
                Ok(out) => self@.condition_tokens(tokens_view(toks@), 0, Seq::empty(), 0) == Ok::<
                    Seq<TokenV>,
                    u32,
                >(tokens_view(out@)),
                Err(line) => self@.condition_tokens(tokens_view(toks@), 0, Seq::empty(), 0)
                    == Err::<Seq<TokenV>, u32>(line),
            },
    {
        let ghost goal = self@.condition_tokens(tokens_view(toks@), 0, Seq::empty(), 0);
        let mut work = toks;
        let mut out: Vec<Token> = Vec::new();
        let mut i: usize = 0;
        let mut steps: u64 = 0;
        assert(tokens_view(out@) =~= Seq::<TokenV>::empty());
        while i < work.len()
            invariant
                i <= work@.len(),
                steps <= MAX_CONDITION_STEPS,
                goal == self@.condition_tokens(tokens_view(toks@), 0, Seq::empty(), 0),
                self@.condition_tokens(
                    tokens_view(work@),
                    i as int,
                    tokens_view(out@),
                    steps as int,
                ) == goal,
            decreases MAX_CONDITION_STEPS - steps,
        {
            if steps >= MAX_CONDITION_STEPS || work.len() > MAX_CONDITION_TOKENS || out.len()
                > MAX_CONDITION_TOKENS {
                return Err(work[i].line);
            }
            steps = steps + 1;
            let n = work.len();
            let tok = work[i].clone();
            let ghost ws = tokens_view(work@);
            assert(ws[i as int] == tok@);
            let name = match &tok.kind {
                TokenKind::Identifier(s) => s.clone(),
                _ => {
                    push_token(&mut out, tok);
                    i = i + 1;
                    continue ;
                },
            };
            if str_eq(name.as_str(), "defined") {
                let (val, consumed) = self.defined_operand(work.as_slice(), i);
                let digit = if val {
                    owned("1")
                } else {
                    owned("0")
                };
                push_token(&mut out, Token::new(TokenKind::Number(digit), tok.line, tok.col));
                i = i + consumed;
                continue ;
            }
            if str_eq(name.as_str(), "__LINE__") {
                let digits = decimal(tok.line as u64);
                push_token(&mut out, Token::new(TokenKind::Number(digits), tok.line, tok.col));
                i = i + 1;
                continue ;
            }
            if tok.is_hidden(name.as_str()) || self.fallback_macros.contains(name.as_str()) {
                push_token(&mut out, tok);
                i = i + 1;
                continue ;
            }
            match self.macros.get(name.as_str()) {
                None => {
                    push_token(&mut out, tok);
                    i = i + 1;
                },
                Some(MacroDef::Object { replacement }) => {
                    let middle = paint_replacement(replacement.as_slice(), &tok, name.as_str());
                    work = splice_tokens(work, i, i + 1, middle);
                },
                Some(MacroDef::Function { params, replacement, variadic }) => {
                    match parse_cond_macro_args(work.as_slice(), i + 1) {
                        Some((args, next)) => {
                            let middle = expand_call(
                                name.as_str(),
                                &tok,
                                replacement.as_slice(),
                                params,
                                &args,
                                *variadic,
                            );
                            work = splice_tokens(work, i, next, middle);
                        },
                        None => {
                            push_token(&mut out, tok);
                            i = i + 1;
                        },
                    }
                },
            }
        }
        Ok(out)
    }

    /// The value of the condition at `i`, and where it ends.
    fn expand_and_eval_condition(&mut self, tokens: &[Token], i: usize) -> (r: (bool, usize))
        requires
            i <= tokens@.len(),
        ensures
            final(self)@ == old(self)@.condition(tokens_view(tokens@), i as int).0,
            r.0 == old(self)@.condition(tokens_view(tokens@), i as int).1,
            r.1 == long_line_end(tokens_view(tokens@), i as int),
            i <= r.1 <= tokens@.len(),
    {
        let (cond, end) = read_long_line(tokens, i);
        match self.expand_condition_tokens(cond) {
            Ok(expanded) => (eval_pp_tokens(expanded.as_slice()), end),
            Err(line) => {
                self.warn(
                    line,
                    owned("macro expansion budget exceeded in #if condition; treating as false"),
                );
                (false, end)
            },
        }
    }

    fn no_identifier(&mut self, tokens: &[Token], i: usize) -> (r: PreprocessError)
        requires
            i <= tokens@.len(),
        ensures
            final(self)@ == old(self)@.no_identifier(tokens_view(tokens@), i as int).0,
            old(self)@.no_identifier(tokens_view(tokens@), i as int).1 == Err::<int, ErrorV>(r@),
    {
        let j = find_non_newline(tokens, i);
        let line = line_of(tokens, j);
        self.error(line, owned("expected identifier in directive"))
    }

    fn handle_define(&mut self, tokens: &[Token], i: usize) -> (r: Result<usize, PreprocessError>)
        requires
            i <= tokens@.len(),
        ensures
            final(self)@ == old(self)@.define(tokens_view(tokens@), i as int).0,
            match r {
                Ok(end) => old(self)@.define(tokens_view(tokens@), i as int).1 == Ok::<int, ErrorV>(
                    end as int,
                ) && i <= end <= tokens@.len(),
                Err(e) => old(self)@.define(tokens_view(tokens@), i as int).1 == Err::<int, ErrorV>(
                    e@,
                ),
            },
    {
        let j = find_non_newline(tokens, i);
        let name = match ident_at(tokens, j) {
            Some(n) => n,
            None => {
                return Err(self.no_identifier(tokens, i));
            },
        };
        match parameter_list_open(tokens, j) {
            Some(open) => {
                match parse_macro_param_list(tokens, open + 1) {
                    Params::Bad { at } => {
                        let line = line_of(tokens, at);
                        if at_line_end(tokens, at) {
                            self.warn(
                                line,
                                owned("unterminated macro parameter list; definition ignored"),
                            );
                        } else {
                            self.warn(
                                line,
                                owned("expected , or ) in macro parameters; definition ignored"),
                            );
                        }
                        Ok(skip_long_line(tokens, at))
                    },
                    Params::Good { params, variadic, end } => {
                        let (body, stop) = read_replacement_list(tokens, end);
                        let n = params.len();
                        let replacement = if variadic && n > 0 && !str_eq(
                            params[n - 1].as_str(),
                            "__VA_ARGS__",
                        ) {
                            alias_va_args(body, params[n - 1].as_str())
                        } else {
                            body
                        };
                        self.insert_macro(
                            name,
                            MacroDef::Function { params, replacement, variadic },
                        );
                        Ok(stop)
                    },
                }
            },
            None => {
                let (replacement, stop) = read_replacement_list(tokens, j + 1);
                self.insert_macro(name, MacroDef::Object { replacement });
                Ok(stop)
            },
        }
    }

    fn handle_undef(&mut self, tokens: &[Token], i: usize) -> (r: Result<usize, PreprocessError>)
        requires
            i <= tokens@.len(),
        ensures
            final(self)@ == old(self)@.undef(tokens_view(tokens@), i as int).0,
            match r {
                Ok(end) => old(self)@.undef(tokens_view(tokens@), i as int).1 == Ok::<int, ErrorV>(
                    end as int,
                ) && i <= end <= tokens@.len(),
                Err(e) => old(self)@.undef(tokens_view(tokens@), i as int).1 == Err::<int, ErrorV>(
                    e@,
                ),
            },
    {
        let j = find_non_newline(tokens, i);
        match ident_at(tokens, j) {
            Some(n) => {
                self.remove_macro(n.as_str());
                Ok(j + 1)
            },
            None => Err(self.no_identifier(tokens, i)),
        }
    }

    fn handle_ifdef(&mut self, tokens: &[Token], i: usize, wanted: bool) -> (r: Result<
        usize,
        PreprocessError,
    >)
        requires
            i <= tokens@.len(),
        ensures
            final(self)@ == old(self)@.ifdef(tokens_view(tokens@), i as int, wanted).0,
            match r {
                Ok(end) => old(self)@.ifdef(tokens_view(tokens@), i as int, wanted).1 == Ok::<
                    int,
                    ErrorV,
                >(end as int) && i <= end <= tokens@.len(),
                Err(e) => old(self)@.ifdef(tokens_view(tokens@), i as int, wanted).1 == Err::<
                    int,
                    ErrorV,
                >(e@),
            },
    {
        if !self.is_active() {
            self.push_cond(false);
            return Ok(i);
        }
        let j = find_non_newline(tokens, i);
        match ident_at(tokens, j) {
            Some(n) => {
                let defined = self.is_defined_for_conditionals(n.as_str());
                self.push_cond(defined == wanted);
                Ok(j + 1)
            },
            None => Err(self.no_identifier(tokens, i)),
        }
    }

    fn handle_if(&mut self, tokens: &[Token], i: usize) -> (r: usize)
        requires
            i <= tokens@.len(),
        ensures
            final(self)@ == old(self)@.if_(tokens_view(tokens@), i as int).0,
            old(self)@.if_(tokens_view(tokens@), i as int).1 == Ok::<int, ErrorV>(r as int),
            i <= r <= tokens@.len(),
    {
        if self.is_active() {
            let (holds, end) = self.expand_and_eval_condition(tokens, i);
            self.push_cond(holds);
            end
        } else {
            let end = skip_long_line(tokens, i);
            self.push_cond(false);
            end
        }
    }

    fn handle_elif(&mut self, tokens: &[Token], i: usize) -> (r: Result<usize, PreprocessError>)
        requires
            0 < i <= tokens@.len(),
        ensures
            final(self)@ == old(self)@.elif(tokens_view(tokens@), i as int).0,
            match r {
                Ok(end) => old(self)@.elif(tokens_view(tokens@), i as int).1 == Ok::<int, ErrorV>(
                    end as int,
                ) && i <= end <= tokens@.len(),
                Err(e) => old(self)@.elif(tokens_view(tokens@), i as int).1 == Err::<int, ErrorV>(
                    e@,
                ),
            },
    {
        let n = self.conditional_stack.len();
        if n == 0 {
            return Err(self.error(line_of(tokens, i - 1), owned("#elif without #if")));
        }
        let f = self.conditional_stack[n - 1];
        let (holds, end) = if f.parent_active && !f.taken && !f.else_seen {
            self.expand_and_eval_condition(tokens, i)
        } else {
            (false, skip_long_line(tokens, i))
        };
        if f.else_seen {
            self.warn(line_of(tokens, end - 1), owned("#elif after #else; branch ignored"));
        }
        let active = f.parent_active && !f.taken && holds;
        self.set_cond(CondFrame { active, taken: f.taken || active, ..f });
        Ok(end)
    }

    fn handle_else(&mut self, tokens: &[Token], i: usize) -> (r: Result<usize, PreprocessError>)
        requires
            0 < i <= tokens@.len(),
        ensures
            final(self)@ == old(self)@.else_(tokens_view(tokens@), i as int).0,
            match r {
                Ok(end) => old(self)@.else_(tokens_view(tokens@), i as int).1 == Ok::<int, ErrorV>(
                    end as int,
                ) && end == i,
                Err(e) => old(self)@.else_(tokens_view(tokens@), i as int).1 == Err::<int, ErrorV>(
                    e@,
                ),
            },
    {
        let n = self.conditional_stack.len();
        if n == 0 {
            return Err(self.error(line_of(tokens, i - 1), owned("#else without #if")));
        }
        let f = self.conditional_stack[n - 1];
        self.set_cond(
            CondFrame {
                active: f.parent_active && !f.taken,
                taken: true,
                else_seen: true,
                ..f
            },
        );
        Ok(i)
    }

    fn handle_endif(&mut self, tokens: &[Token], i: usize) -> (r: Result<usize, PreprocessError>)
        requires
            0 < i <= tokens@.len(),
        ensures
            final(self)@ == old(self)@.endif(tokens_view(tokens@), i as int).0,
            match r {
                Ok(end) => old(self)@.endif(tokens_view(tokens@), i as int).1 == Ok::<int, ErrorV>(
                    end as int,
                ) && end == i,
                Err(e) => old(self)@.endif(tokens_view(tokens@), i as int).1 == Err::<int, ErrorV>(
                    e@,
                ),
            },
    {
        if self.conditional_stack.len() == 0 {
            return Err(self.error(line_of(tokens, i - 1), owned("#endif without #if")));
        }
        self.conditional_stack.pop();
        Ok(i)
    }

    /// The file that a header's name stands for.
    fn resolve_include(&mut self, path: &str) -> (r: Option<String>)
        ensures
            final(self)@ == old(self)@.resolve(path@).0,
            match r {
                Some(p) => old(self)@.resolve(path@).1 == Some(p@),
                None => old(self)@.resolve(path@).1 is None,
            },
    {
        let chars = chars_of(path);
        let candidate = if (chars.len() > 0 && chars[0] == '/') || has_backslash(&chars) {
            owned(path)
        } else {
            join(directory(self.current_file.as_str()).as_str(), path)
        };
        if self.opts.tree.get(candidate.as_str()).is_some() {
            return Some(candidate);
        }
        self.note_missing(candidate.as_str());
        let opts = self.opts;
        let ghost goal = self@.search(path@, 0);
        let mut k: usize = 0;
        while k < opts.include_paths.len()
            invariant
                k <= opts.include_paths@.len(),
                opts == self.opts,
                self@.search(path@, k as int) == goal,
                old(self)@.resolve(path@) == ({
                    let (st, found) = goal;
                    let name = file_name_of(path@);
                    match (found, old(self)@.cfg.index) {
                        (Some(p), _) => (st, Some(p)),
                        (None, Some(index)) => if index.contains_key(name) && index[name].len()
                            == 1 {
                            (st, Some(index[name][0]))
                        } else {
                            (st, None)
                        },
                        (None, None) => (st, None),
                    }
                }),
                self@.cfg == old(self)@.cfg,
            decreases opts.include_paths@.len() - k,
        {
            let p = join(opts.include_paths[k].as_str(), path);
            assert(self@.cfg.include_paths[k as int] == opts.include_paths@[k as int]@);
            match opts.tree.get(p.as_str()) {
                Some(f) => {
                    if f.is_file {
                        return Some(p);
                    }
                },
                None => {},
            }
            self.note_missing(p.as_str());
            k = k + 1;
        }
        match &opts.basename_index {
            Some(index) => {
                let name = file_name(path);
                match index.get(name.as_str()) {
                    Some(matches) => if matches.len() == 1 {
                        Some(matches[0].clone())
                    } else {
                        None
                    },
                    None => None,
                }
            },
            None => None,
        }
    }

    /// The header that an `#include` names.
    fn include_name(&mut self, tokens: &[Token], i: usize, depth: u32) -> (r: Result<
        String,
        PreprocessError,
    >)
        requires
            i <= tokens@.len(),
            depth <= 256,
        ensures
            final(self)@ == old(self)@.include_name(
                tokens_view(tokens@),
                i as int,
                depth as int,
            ).0,
            match r {
                Ok(p) => old(self)@.include_name(tokens_view(tokens@), i as int, depth as int).1
                    == Ok::<Seq<char>, ErrorV>(p@),
                Err(e) => old(self)@.include_name(tokens_view(tokens@), i as int, depth as int).1
                    == Err::<Seq<char>, ErrorV>(e@),
            },
    {
        match parse_include_header(tokens, i) {
            Some(p) => {
                return Ok(p);
            },
            None => {},
        }
        let end = find_line_end(tokens, i);
        let mut operand: Vec<Token> = Vec::new();
        push_clones(&mut operand, tokens, i, end);
        assert(tokens_view(operand@) =~= tokens_view(tokens@).subrange(i as int, end as int));
        match self.expand_include_operand(operand.as_slice(), depth) {
            Err(e) => Err(e),
            Ok(expanded) => match parse_include_header(expanded.as_slice(), 0) {
                Some(p) => Ok(p),
                None => Err(
                    self.error(
                        line_of(tokens, i),
                        owned("expected string or <...> after #include"),
                    ),
                ),
            },
        }
    }

    /// The files from `from` on that contributed to the output.
    fn contributing_files(&self, from: usize) -> (r: Vec<String>)
        ensures
            names_view(r@) == contributing(
                self@.guard,
                self@.emitted,
                from as int,
                self@.guard.len() as int,
            ),
    {
        let mut out: Vec<String> = Vec::new();
        let mut i: usize = from;
        assert(names_view(out@) =~= Seq::<Seq<char>>::empty());
        while i < self.included_guard.len()
            invariant
                from <= i,
                i <= self.included_guard@.len() || i == from,
                names_view(out@) == contributing(
                    self@.guard,
                    self@.emitted,
                    from as int,
                    i as int,
                ),
            decreases self.included_guard@.len() - i,
        {
            let name = self.included_guard[i].as_str();
            assert(self@.guard[i as int] == name@);
            match self.emitted_bytes.get(name) {
                Some(n) => {
                    if *n > 0 {
                        add_name(&mut out, name);
                    }
                },
                None => {},
            }
            i = i + 1;
        }
        assert(contributing(self@.guard, self@.emitted, from as int, i as int) == contributing(
            self@.guard,
            self@.emitted,
            from as int,
            self@.guard.len() as int,
        ));
        out
    }

    /// What is to be done once a header has been read.
    fn close_header(
        &mut self,
        path: &str,
        canonical: &str,
        content: &str,
        start: OutPos,
        guard_len: usize,
        ops_len: usize,
    )
        ensures
            final(self)@ == old(self)@.close_header(
                path@,
                canonical@,
                content@,
                start,
                guard_len as int,
                ops_len as int,
            ),
    {
        let emitted: usize = if self.output_len > start.bytes {
            self.output_len - start.bytes
        } else {
            0
        };
        self.emitted_bytes.insert(owned(canonical), emitted);
        if self.opts.include_expansion_cache.is_none() || self.opts.frozen_expansion_cache
            || !is_header(canonical) {
            return ;
        }
        let ghost counted = self@;
        let ghost frames = self@.frames;
        let skips = match self.cache_frames.pop() {
            Some(f) => f,
            None => Vec::new(),
        };
        proof {
            if frames.len() > 0 {
                assert(self@.frames =~= frames.drop_last());
                assert(skips_view(skips@) =~= frames.last());
            } else {
                assert(self@.frames =~= frames);
                assert(skips_view(skips@) =~= Seq::<SkipV>::empty());
            }
        }
        if emitted == 0 && skips.len() == 0 && content_present(content) {
            let d = Diagnostic {
                severity: DiagnosticSeverity::Warning,
                file: Some(owned(path)),
                line: 1,
                message: owned("resolved include expanded to nothing (guard already defined?)"),
            };
            let ghost before = self.diagnostics@;
            self.diagnostics.push(d);
            assert(diags_view(self.diagnostics@) =~= diags_view(before).push(d@));
        }
        let end = self.output_pos();
        let composed = if self.opts.inline_include_bodies {
            self.compose_cache_text(start, end, &skips)
        } else {
            self.raw_cache_text(start, end)
        };
        let mut files = self.contributing_files(guard_len);
        add_names(&mut files, &composed.files);
        let ops = if ops_len <= self.macro_ops.len() {
            clone_ops(&self.macro_ops, ops_len)
        } else {
            let none: Vec<MacroOp> = Vec::new();
            assert(ops_view(none@) =~= Seq::<MacroOpV>::empty());
            none
        };
        let text = string_of(&composed.text, 0, composed.text.len());
        assert(text@ =~= composed.text@);
        let entry = IncludeExpansion { text, files, line_map: composed.line_map, ops };
        if composed.text.len() > 0 || entry.ops.len() > 0 || entry.files.len() > 0 {
            self.keep_expansion(owned(canonical), entry);
        }
        if self.cache_frames.len() == 0 {
            self.macro_ops = Vec::new();
            assert(ops_view(self.macro_ops@) =~= Seq::<MacroOpV>::empty());
        }
    }

    /// Takes a file in.
    pub fn process_file(&mut self, path: &str, room: usize, depth: u32) -> (r: Result<
        (),
        PreprocessError,
    >)
        requires
            depth <= 256,
        ensures
            final(self)@ == old(self)@.file(path@, room as nat, depth as int).0,
            match r {
                Ok(_) => old(self)@.file(path@, room as nat, depth as int).1 is Ok,
                Err(e) => old(self)@.file(path@, room as nat, depth as int).1 == Err::<(), ErrorV>(
                    e@,
                ),
            },
        decreases room, 256 - depth, 0int, 1int,
    {
        self.note_missing(path);
        let canonical = self.opts.tree.canonicalize(path);
        let ghost st = self@;
        if contains_name(&self.included_guard, canonical.as_str()) {
            if !self.opts.frozen_expansion_cache {
                let at = self.output_pos();
                self.note_skip(at, canonical);
            }
            return Ok(());
        }
        if room == 0 {
            let message = cat2(
                cat3(
                    "include depth exceeded (",
                    decimal(self.opts.max_include_depth as u64).as_str(),
                    "); skipping ",
                ).as_str(),
                path,
            );
            self.warn(1, message);
            return Ok(());
        }
        match self.cached_expansion(canonical.as_str()) {
            Some(entry) => {
                self.splice_cached(canonical.as_str(), &entry);
                return Ok(());
            },
            None => {},
        }
        let start = self.output_pos();
        let guard_len = self.included_guard.len();
        let ops_len = self.macro_ops.len();
        add_name(&mut self.included_guard, canonical.as_str());
        if self.opts.include_expansion_cache.is_some() && is_header(canonical.as_str())
            && !self.opts.frozen_expansion_cache {
            let ghost before = self.cache_frames@;
            let frame: Vec<Skip> = Vec::new();
            assert(skips_view(frame@) =~= Seq::<SkipV>::empty());
            self.cache_frames.push(frame);
            assert(frames_view(self.cache_frames@) =~= frames_view(before).push(
                Seq::<SkipV>::empty(),
            ));
        }
        let opts = self.opts;
        let content = match opts.tree.get(path) {
            Some(f) => match &f.content {
                Ok(text) => text.clone(),
                Err(reason) => {
                    return Err(
                        PreprocessError::Io { path: owned(path), reason: reason.clone() },
                    );
                },
            },
            None => {
                return Err(
                    PreprocessError::Io { path: owned(path), reason: owned("file not found") },
                );
            },
        };
        let prev_file = self.current_file.clone();
        self.current_file = owned(path);
        let tokens = Lexer::new(content.as_str()).tokenize();
        match self.process_tokens(tokens.as_slice(), room - 1, depth) {
            Ok(_) => {},
            Err(e) => {
                let message = cat2(
                    cat3("preprocess stopped in ", self.current_file.as_str(), ": ").as_str(),
                    e.text().as_str(),
                );
                self.warn(1, message);
            },
        }
        self.current_file = prev_file;
        self.close_header(
            path,
            canonical.as_str(),
            content.as_str(),
            start,
            guard_len,
            ops_len,
        );
        Ok(())
    }

    fn handle_include(&mut self, tokens: &[Token], i: usize, room: usize, depth: u32) -> (r: Result<
        usize,
        PreprocessError,
    >)
        requires
            i <= tokens@.len(),
            depth <= 256,
        ensures
            final(self)@ == old(self)@.include_(
                tokens_view(tokens@),
                i as int,
                room as nat,
                depth as int,
            ).0,
            match r {
                Ok(end) => old(self)@.include_(
                    tokens_view(tokens@),
                    i as int,
                    room as nat,
                    depth as int,
                ).1 == Ok::<int, ErrorV>(end as int) && i <= end <= tokens@.len(),
                Err(e) => old(self)@.include_(
                    tokens_view(tokens@),
                    i as int,
                    room as nat,
                    depth as int,
                ).1 == Err::<int, ErrorV>(e@),
            },
        decreases room, 256 - depth, tokens@.len() - i, 2int,
    {
        let j = find_non_newline(tokens, i);
        let line = line_of(tokens, j);
        let path = match self.include_name(tokens, j, depth) {
            Ok(p) => p,
            Err(e) => {
                return Err(e);
            },
        };
        let target = match self.resolve_include(path.as_str()) {
            Some(t) => t,
            None => {
                self.warn(line, cat2("include file not found, skipping: ", path.as_str()));
                return Ok(j);
            },
        };
        let live = self.output_pos();
        match self.process_file(target.as_str(), room, depth) {
            Ok(_) => {},
            Err(e) => {
                let message = cat2(
                    cat3("include preprocessing failed for ", path.as_str(), ": ").as_str(),
                    e.text().as_str(),
                );
                self.warn(line, message);
            },
        }
        if !self.opts.inline_include_bodies && !self.opts.frozen_expansion_cache && is_header(
            target.as_str(),
        ) {
            self.truncate_output(live);
            let canonical = self.opts.tree.canonicalize(target.as_str());
            self.note_skip(live, canonical);
        }
        Ok(j)
    }

    fn handle_directive(&mut self, tokens: &[Token], start: usize, room: usize, depth: u32) -> (r:
        Result<usize, PreprocessError>)
        requires
            start < tokens@.len(),
            depth <= 256,
        ensures
            final(self)@ == old(self)@.directive(
                tokens_view(tokens@),
                start as int,
                room as nat,
                depth as int,
            ).0,
            match r {
                Ok(end) => old(self)@.directive(
                    tokens_view(tokens@),
                    start as int,
                    room as nat,
                    depth as int,
                ).1 == Ok::<int, ErrorV>(end as int) && start < end <= tokens@.len(),
                Err(e) => old(self)@.directive(
                    tokens_view(tokens@),
                    start as int,
                    room as nat,
                    depth as int,
                ).1 == Err::<int, ErrorV>(e@),
            },
        decreases room, 256 - depth, tokens@.len() - start, 3int,
    {
        let n = tokens.len();
        let at = find_non_newline(tokens, start + 1);
        if at >= n {
            return Ok(at);
        }
        let name = match ident_at(tokens, at) {
            Some(s) => s,
            None => {
                return Err(
                    self.error(tokens[at].line, owned("expected directive name after #")),
                );
            },
        };
        let d = name.as_str();
        let i = at + 1;
        let active = self.is_active();
        let r = if str_eq(d, "include") {
            if active {
                self.handle_include(tokens, i, room, depth)
            } else {
                Ok(i)
            }
        } else if str_eq(d, "define") {
            if active {
                self.handle_define(tokens, i)
            } else {
                Ok(i)
            }
        } else if str_eq(d, "ifdef") {
            self.handle_ifdef(tokens, i, true)
        } else if str_eq(d, "ifndef") {
            self.handle_ifdef(tokens, i, false)
        } else if str_eq(d, "if") {
            Ok(self.handle_if(tokens, i))
        } else if str_eq(d, "elif") {
            self.handle_elif(tokens, i)
        } else if str_eq(d, "else") {
            self.handle_else(tokens, i)
        } else if str_eq(d, "endif") {
            self.handle_endif(tokens, i)
        } else if str_eq(d, "line") || str_eq(d, "pragma") {
            Ok(i)
        } else if str_eq(d, "undef") {
            if active {
                self.handle_undef(tokens, i)
            } else {
                Ok(i)
            }
        } else {
            self.warn(tokens[at].line, cat2("unknown directive #", d));
            Ok(i)
        };
        match r {
            Ok(end) => Ok(skip_to_newline(tokens, end)),
            Err(e) => Err(e),
        }
    }

    /// Processes the tokens of a text.
    #[verifier::rlimit(50)]
    pub fn process_tokens(&mut self, tokens: &[Token], room: usize, depth: u32) -> (r: Result<
        (),
        PreprocessError,
    >)
        requires
            depth <= 256,
        ensures
            final(self)@ == old(self)@.tokens(
                tokens_view(tokens@),
                0,
                room as nat,
                depth as int,
            ).0,
            match r {
                Ok(_) => old(self)@.tokens(tokens_view(tokens@), 0, room as nat, depth as int).1
                    is Ok,
                Err(e) => old(self)@.tokens(tokens_view(tokens@), 0, room as nat, depth as int).1
                    == Err::<(), ErrorV>(e@),
            },
        decreases room, 256 - depth, tokens@.len(), 4int,
    {
        let ghost ts = tokens_view(tokens@);
        let ghost goal = self@.tokens(ts, 0, room as nat, depth as int);
        let mut i: usize = 0;
        while i < tokens.len()
            invariant
                depth <= 256,
                i <= tokens@.len(),
                ts == tokens_view(tokens@),
                self@.tokens(ts, i as int, room as nat, depth as int) == goal,
                goal == old(self)@.tokens(ts, 0, room as nat, depth as int),
            decreases tokens@.len() - i,
        {
            let n = tokens.len();
            match self.check_resource_limits(tokens[i].line) {
                Ok(_) => {},
                Err(e) => {
                    return Err(e);
                },
            }
            if matches!(tokens[i].kind, TokenKind::Eof) {
                return Ok(());
            }
            let hash = matches!(tokens[i].kind, TokenKind::Hash);
            if hash && at_beginning_of_line(tokens, i) {
                match self.handle_directive(tokens, i, room, depth) {
                    Ok(next) => {
                        i = next;
                    },
                    Err(e) => {
                        return Err(e);
                    },
                }
                continue ;
            }
            if !self.is_active() {
                i = i + 1;
                continue ;
            }
            if hash {
                match ident_at(tokens, i + 1) {
                    Some(name) => {
                        let text = quote(name.as_str());
                        self.emit_str(text.as_str(), tokens[i + 1].line, tokens[i + 1].col);
                        i = i + 2;
                        continue ;
                    },
                    None => {},
                }
            }
            match &tokens[i].kind {
                TokenKind::Identifier(name) => {
                    if str_eq(name.as_str(), "__FILE__") {
                        let text = quote(self.current_file.as_str());
                        self.emit_str(text.as_str(), tokens[i].line, tokens[i].col);
                        i = i + 1;
                        continue ;
                    }
                    if str_eq(name.as_str(), "__LINE__") {
                        let text = decimal(tokens[i].line as u64);
                        self.emit_str(text.as_str(), tokens[i].line, tokens[i].col);
                        i = i + 1;
                        continue ;
                    }
                },
                _ => {},
            }
            match self.use_at(tokens, i) {
                MacroUse::Nothing => {
                    self.emit_token(&tokens[i]);
                    i = i + 1;
                },
                MacroUse::Object { replacement } => {
                    if depth >= 256 {
                        self.warn_too_deep(tokens[i].line);
                        self.emit_token(&tokens[i]);
                        i = i + 1;
                    } else {
                        match self.expand_tokens_no_directives(replacement.as_slice(), depth + 1) {
                            Ok(_) => {},
                            Err(e) => {
                                return Err(e);
                            },
                        }
                        i = i + 1;
                    }
                },
                MacroUse::Function { name, params, body, variadic } => {
                    if depth >= 256 {
                        self.warn_too_deep(tokens[i].line);
                        self.emit_token(&tokens[i]);
                        i = i + 1;
                    } else {
                        match parse_macro_args(tokens, i + 1) {
                            Args::Unterminated { at } => {
                                return Err(self.unterminated(tokens[at].line));
                            },
                            Args::Good { args, end } => {
                                let expanded = expand_call(
                                    name.as_str(),
                                    &tokens[i],
                                    body.as_slice(),
                                    &params,
                                    &args,
                                    variadic,
                                );
                                match self.process_tokens(expanded.as_slice(), room, depth + 1) {
                                    Ok(_) => {},
                                    Err(e) => {
                                        return Err(e);
                                    },
                                }
                                i = end;
                            },
                        }
                    }
                },
            }
        }
        Ok(())
    }
}

} // verus!
