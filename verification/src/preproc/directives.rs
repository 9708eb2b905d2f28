//! Reading directives and macro calls off a list of tokens.

use crate::preproc::line_map::{add_u32, offset_u32, sat_add_u32, to_offset};
use crate::preproc::lexer::next_u32;
use crate::preproc::substitute::{is_newline_at, is_punct, is_punct_at, kind_at, punct_at};
use crate::preproc::token::{
    push_token, token_lists_view, tokens_view, KindV, Token, TokenKind, TokenV,
};
use crate::text::{names_view, owned, push_name, sat_usize, str_eq, subrange_push, take_push};
use vstd::prelude::*;
use vstd::string::*;

verus! {

broadcast use {subrange_push, take_push};

/// Whether a line ends at `i`, or the text does.
pub open spec fn ends_line(ts: Seq<TokenV>, i: int) -> bool {
    kind_at(ts, i) is None || kind_at(ts, i) == Some(KindV::Newline) || kind_at(ts, i) == Some(
        KindV::Eof,
    )
}

/// Whether the tokens at `i` are a backslash and the end of its line. The
/// two join lines wherever a directive or a call is read.
pub open spec fn continues_line(ts: Seq<TokenV>, i: int) -> bool {
    punct_at(ts, i, "\\"@) && kind_at(ts, i + 1) == Some(KindV::Newline)
}

/// The first position from `i` on that is not a newline.
pub open spec fn skip_newlines(ts: Seq<TokenV>, i: int) -> int
    decreases ts.len() - i,
{
    if kind_at(ts, i) == Some(KindV::Newline) {
        skip_newlines(ts, i + 1)
    } else {
        i
    }
}

/// Where the line ends that `i` is on.
pub open spec fn line_end(ts: Seq<TokenV>, i: int) -> int
    decreases ts.len() - i,
{
    if ends_line(ts, i) {
        i
    } else {
        line_end(ts, i + 1)
    }
}

/// Where the line after the one that `i` is on begins.
pub open spec fn next_line(ts: Seq<TokenV>, i: int) -> int {
    let e = line_end(ts, i);
    if kind_at(ts, e) == Some(KindV::Newline) {
        e + 1
    } else {
        e
    }
}

/// Where a line ends that may be continued on the next.
pub open spec fn long_line_end(ts: Seq<TokenV>, i: int) -> int
    decreases ts.len() - i,
{
    if ends_line(ts, i) {
        i
    } else if continues_line(ts, i) {
        long_line_end(ts, i + 2)
    } else {
        long_line_end(ts, i + 1)
    }
}

/// The tokens of a line that may be continued on the next.
pub open spec fn long_line(ts: Seq<TokenV>, i: int) -> Seq<TokenV>
    decreases ts.len() - i,
{
    if ends_line(ts, i) {
        Seq::empty()
    } else if continues_line(ts, i) {
        long_line(ts, i + 2)
    } else {
        seq![ts[i]] + long_line(ts, i + 1)
    }
}

/// Where a replacement list that reaches up to `i` ends: at a newline that
/// is not continued, or with the tokens.
pub open spec fn body_end(ts: Seq<TokenV>, i: int) -> int
    decreases ts.len() - i,
{
    if kind_at(ts, i) is None || kind_at(ts, i) == Some(KindV::Newline) {
        i
    } else if continues_line(ts, i) {
        body_end(ts, i + 2)
    } else {
        body_end(ts, i + 1)
    }
}

/// The tokens of the replacement list at `i`.
pub open spec fn body_tokens(ts: Seq<TokenV>, i: int) -> Seq<TokenV>
    decreases ts.len() - i,
{
    if kind_at(ts, i) is None || kind_at(ts, i) == Some(KindV::Newline) {
        Seq::empty()
    } else if continues_line(ts, i) {
        body_tokens(ts, i + 2)
    } else {
        seq![ts[i]] + body_tokens(ts, i + 1)
    }
}

/// The first position from `i` on where no line is continued.
pub open spec fn skip_continuations(ts: Seq<TokenV>, i: int) -> int
    decreases ts.len() - i,
{
    if continues_line(ts, i) {
        skip_continuations(ts, i + 2)
    } else {
        i
    }
}

pub proof fn skip_continuations_bounds(ts: Seq<TokenV>, i: int)
    ensures
        i <= skip_continuations(ts, i),
        0 <= i <= ts.len() ==> skip_continuations(ts, i) <= ts.len(),
    decreases ts.len() - i,
{
    if continues_line(ts, i) {
        skip_continuations_bounds(ts, i + 2);
    }
}

/// Whether `...` is at `i`, as one token or as three.
pub open spec fn ellipsis_at(ts: Seq<TokenV>, i: int) -> bool {
    punct_at(ts, i, "..."@) || (punct_at(ts, i, "."@) && punct_at(ts, i + 1, "."@) && punct_at(
        ts,
        i + 2,
        "."@,
    ))
}

pub open spec fn after_ellipsis(ts: Seq<TokenV>, i: int) -> int {
    if punct_at(ts, i, "..."@) {
        i + 1
    } else {
        i + 3
    }
}

/// What the parameters of a macro come to.
pub enum ParamsV {
    /// The names, whether the last one collects the rest, and where the
    /// replacement list begins.
    Good { params: Seq<Seq<char>>, variadic: bool, end: int },
    /// Where the list breaks off.
    Bad { at: int },
}

/// The rest of a parameter list behind `...`: everything up to the
/// parenthesis is dropped.
pub open spec fn params_tail(ts: Seq<TokenV>, i: int, params: Seq<Seq<char>>) -> ParamsV
    decreases ts.len() - i,
{
    let j = skip_continuations(ts, i);
    proof {
        skip_continuations_bounds(ts, i);
    }
    if punct_at(ts, j, ")"@) {
        ParamsV::Good { params, variadic: true, end: j + 1 }
    } else if ends_line(ts, j) {
        ParamsV::Bad { at: j }
    } else {
        params_tail(ts, j + 1, params)
    }
}

/// The parameter list from `i` on, behind the `params` read already.
pub open spec fn params_from(ts: Seq<TokenV>, i: int, params: Seq<Seq<char>>) -> ParamsV
    decreases ts.len() - i,
{
    let j = skip_continuations(ts, i);
    proof {
        skip_continuations_bounds(ts, i);
        skip_continuations_bounds(ts, j + 1);
    }
    if ellipsis_at(ts, j) {
        params_tail(ts, after_ellipsis(ts, j), params.push("__VA_ARGS__"@))
    } else if punct_at(ts, j, ")"@) {
        ParamsV::Good { params, variadic: false, end: j + 1 }
    } else {
        match kind_at(ts, j) {
            Some(KindV::Identifier(name)) => {
                let k = skip_continuations(ts, j + 1);
                let named = params.push(name);
                if ellipsis_at(ts, k) {
                    params_tail(ts, after_ellipsis(ts, k), named)
                } else if punct_at(ts, k, ")"@) {
                    ParamsV::Good { params: named, variadic: false, end: k + 1 }
                } else if punct_at(ts, k, ","@) {
                    params_from(ts, k + 1, named)
                } else {
                    ParamsV::Bad { at: k }
                }
            },
            _ => ParamsV::Bad { at: j },
        }
    }
}

/// The parenthesis at `i`, or behind continuations there, if it is at the
/// line and column given.
pub open spec fn open_at(ts: Seq<TokenV>, i: int, line: u32, col: u32) -> Option<int>
    decreases ts.len() - i,
{
    if continues_line(ts, i) && ts[i].line == line && ts[i].col == col {
        open_at(ts, i + 2, next_u32(line), 1)
    } else if punct_at(ts, i, "("@) && ts[i].line == line && ts[i].col == col {
        Some(i)
    } else {
        None
    }
}

/// The parenthesis that opens the parameter list of the macro named at
/// `at`: it must follow the name directly.
pub open spec fn list_open(ts: Seq<TokenV>, at: int) -> Option<int> {
    match kind_at(ts, at) {
        Some(KindV::Identifier(name)) => open_at(
            ts,
            at + 1,
            ts[at].line,
            sat_add_u32(ts[at].col, offset_u32(sat_usize(name.len() as int))),
        ),
        _ => None,
    }
}

/// The arguments of a call, and where it ends; for one that runs into the
/// end of the text, where that is.
pub enum ArgsV {
    Good { args: Seq<Seq<TokenV>>, end: int },
    Unterminated { at: int },
}

/// The arguments from `i` on, with `args` complete, `current` begun and
/// `depth` parentheses open inside it. A list that simply stops loses the
/// argument that it breaks off in.
pub open spec fn args_from(
    ts: Seq<TokenV>,
    i: int,
    depth: int,
    args: Seq<Seq<TokenV>>,
    current: Seq<TokenV>,
) -> ArgsV
    decreases ts.len() - i,
{
    if i < 0 || i >= ts.len() {
        ArgsV::Good { args, end: i }
    } else if continues_line(ts, i) {
        args_from(ts, i + 2, depth, args, current)
    } else if punct_at(ts, i, "("@) {
        args_from(ts, i + 1, depth + 1, args, current.push(ts[i]))
    } else if punct_at(ts, i, ")"@) && depth == 0 {
        ArgsV::Good { args: args.push(current), end: i + 1 }
    } else if punct_at(ts, i, ")"@) {
        args_from(ts, i + 1, depth - 1, args, current.push(ts[i]))
    } else if punct_at(ts, i, ","@) && depth == 0 {
        args_from(ts, i + 1, depth, args.push(current), Seq::empty())
    } else if ts[i].kind == KindV::Eof {
        ArgsV::Unterminated { at: i }
    } else {
        args_from(ts, i + 1, depth, args, current.push(ts[i]))
    }
}

/// The arguments of the call whose name is just before `i`.
pub open spec fn macro_args(ts: Seq<TokenV>, i: int) -> ArgsV {
    let j = skip_newlines(ts, i);
    if punct_at(ts, j, "("@) {
        args_from(ts, j + 1, 0, Seq::empty(), Seq::empty())
    } else {
        ArgsV::Good { args: Seq::empty(), end: j }
    }
}

/// The same inside a condition, where lines are joined already: nothing
/// unless the list is complete.
pub open spec fn cond_args_from(
    ts: Seq<TokenV>,
    i: int,
    depth: int,
    args: Seq<Seq<TokenV>>,
    current: Seq<TokenV>,
) -> Option<(Seq<Seq<TokenV>>, int)>
    decreases ts.len() - i,
{
    if i < 0 || i >= ts.len() {
        None
    } else if punct_at(ts, i, "("@) {
        cond_args_from(ts, i + 1, depth + 1, args, current.push(ts[i]))
    } else if punct_at(ts, i, ")"@) && depth == 0 {
        Some((args.push(current), i + 1))
    } else if punct_at(ts, i, ")"@) {
        cond_args_from(ts, i + 1, depth - 1, args, current.push(ts[i]))
    } else if punct_at(ts, i, ","@) && depth == 0 {
        cond_args_from(ts, i + 1, depth, args.push(current), Seq::empty())
    } else {
        cond_args_from(ts, i + 1, depth, args, current.push(ts[i]))
    }
}

pub open spec fn cond_args(ts: Seq<TokenV>, i: int) -> Option<(Seq<Seq<TokenV>>, int)> {
    if punct_at(ts, i, "("@) {
        cond_args_from(ts, i + 1, 0, Seq::empty(), Seq::empty())
    } else {
        None
    }
}

/// The header named between `<` and `>`, `name` being read already.
pub open spec fn angle_header(ts: Seq<TokenV>, i: int, name: Seq<char>) -> Option<Seq<char>>
    decreases ts.len() - i,
{
    match kind_at(ts, i) {
        Some(KindV::Identifier(s)) => if s == ">"@ {
            None
        } else {
            angle_header(ts, i + 1, name + s)
        },
        Some(KindV::Number(s)) => if s == ">"@ {
            None
        } else {
            angle_header(ts, i + 1, name + s)
        },
        Some(KindV::Punct(s)) => if s == ">"@ {
            Some(name)
        } else {
            angle_header(ts, i + 1, name + s)
        },
        _ => None,
    }
}

/// The header that the tokens from `i` on name, in quotes or in angle
/// brackets.
pub open spec fn header_name(ts: Seq<TokenV>, i: int) -> Option<Seq<char>> {
    let j = skip_newlines(ts, i);
    match kind_at(ts, j) {
        Some(KindV::String(s)) => Some(s),
        Some(KindV::Punct(p)) => if p == "<"@ {
            angle_header(ts, j + 1, Seq::empty())
        } else {
            None
        },
        _ => None,
    }
}

/// Whether the token at `i` begins a line.
pub open spec fn begins_line(ts: Seq<TokenV>, i: int) -> bool {
    i == 0 || kind_at(ts, i - 1) == Some(KindV::Newline)
}

/// A body in which every `__VA_ARGS__` goes by the name of the parameter
/// that collects the rest.
pub open spec fn aliased(body: Seq<TokenV>, tail: Seq<char>) -> Seq<TokenV> {
    Seq::new(
        body.len(),
        |i: int|
            if body[i].kind == KindV::Identifier("__VA_ARGS__"@) {
                TokenV { kind: KindV::Identifier(tail), ..body[i] }
            } else {
                body[i]
            },
    )
}

pub fn at_beginning_of_line(tokens: &[Token], i: usize) -> (r: bool)
    ensures
        r == begins_line(tokens_view(tokens@), i as int),
{
    i == 0 || is_newline_at(tokens, i - 1)
}

pub fn at_line_end(tokens: &[Token], i: usize) -> (r: bool)
    ensures
        r == ends_line(tokens_view(tokens@), i as int),
        tokens@.len() <= usize::MAX,
{
    i >= tokens.len() || matches!(tokens[i].kind, TokenKind::Newline) || matches!(
        tokens[i].kind,
        TokenKind::Eof
    )
}

pub fn is_line_continuation(tokens: &[Token], i: usize) -> (r: bool)
    ensures
        r == continues_line(tokens_view(tokens@), i as int),
        tokens@.len() <= usize::MAX,
        r ==> i + 2 <= tokens@.len(),
{
    let n = tokens.len();
    is_punct_at(tokens, i, "\\") && is_newline_at(tokens, i + 1)
}

pub fn find_non_newline(tokens: &[Token], start: usize) -> (r: usize)
    requires
        start <= tokens@.len(),
    ensures
        r == skip_newlines(tokens_view(tokens@), start as int),
        start <= r <= tokens@.len(),
{
    let mut i: usize = start;
    while i < tokens.len() && matches!(tokens[i].kind, TokenKind::Newline)
        invariant
            start <= i <= tokens@.len(),
            skip_newlines(tokens_view(tokens@), i as int) == skip_newlines(
                tokens_view(tokens@),
                start as int,
            ),
        decreases tokens@.len() - i,
    {
        i = i + 1;
    }
    i
}

pub fn next_non_newline_is(tokens: &[Token], i: usize, punct: &str) -> (r: bool)
    requires
        i <= tokens@.len(),
    ensures
        r == punct_at(tokens_view(tokens@), skip_newlines(tokens_view(tokens@), i as int), punct@),
{
    let j = find_non_newline(tokens, i);
    is_punct_at(tokens, j, punct)
}

pub fn find_line_end(tokens: &[Token], start: usize) -> (r: usize)
    requires
        start <= tokens@.len(),
    ensures
        r == line_end(tokens_view(tokens@), start as int),
        start <= r <= tokens@.len(),
{
    let mut i: usize = start;
    while !at_line_end(tokens, i)
        invariant
            start <= i <= tokens@.len(),
            line_end(tokens_view(tokens@), i as int) == line_end(
                tokens_view(tokens@),
                start as int,
            ),
        decreases tokens@.len() - i,
    {
        i = i + 1;
    }
    i
}

pub fn skip_to_newline(tokens: &[Token], i: usize) -> (r: usize)
    requires
        i <= tokens@.len(),
    ensures
        r == next_line(tokens_view(tokens@), i as int),
        i <= r <= tokens@.len(),
{
    let e = find_line_end(tokens, i);
    if is_newline_at(tokens, e) {
        e + 1
    } else {
        e
    }
}

/// Passes over a line that may be continued.
pub fn skip_long_line(tokens: &[Token], start: usize) -> (r: usize)
    requires
        start <= tokens@.len(),
    ensures
        r == long_line_end(tokens_view(tokens@), start as int),
        start <= r <= tokens@.len(),
{
    let mut i: usize = start;
    while !at_line_end(tokens, i)
        invariant
            start <= i <= tokens@.len(),
            long_line_end(tokens_view(tokens@), i as int) == long_line_end(
                tokens_view(tokens@),
                start as int,
            ),
        decreases tokens@.len() - i,
    {
        if is_line_continuation(tokens, i) {
            i = i + 2;
        } else {
            i = i + 1;
        }
    }
    i
}

/// Reads a line that may be continued.
pub fn read_long_line(tokens: &[Token], start: usize) -> (r: (Vec<Token>, usize))
    requires
        start <= tokens@.len(),
    ensures
        tokens_view(r.0@) == long_line(tokens_view(tokens@), start as int),
        r.1 == long_line_end(tokens_view(tokens@), start as int),
        start <= r.1 <= tokens@.len(),
{
    let ghost ts = tokens_view(tokens@);
    let mut out: Vec<Token> = Vec::new();
    let mut i: usize = start;
    assert(tokens_view(out@) + long_line(ts, i as int) =~= long_line(ts, start as int));
    while !at_line_end(tokens, i)
        invariant
            start <= i <= tokens@.len(),
            ts == tokens_view(tokens@),
            tokens_view(out@) + long_line(ts, i as int) == long_line(ts, start as int),
            long_line_end(ts, i as int) == long_line_end(ts, start as int),
        decreases tokens@.len() - i,
    {
        if is_line_continuation(tokens, i) {
            i = i + 2;
        } else {
            let ghost before = tokens_view(out@);
            push_token(&mut out, tokens[i].clone());
            assert(before.push(ts[i as int]) + long_line(ts, i + 1) =~= before + (seq![ts[i as int]]
                + long_line(ts, i + 1)));
            i = i + 1;
        }
    }
    assert(tokens_view(out@) + long_line(ts, i as int) =~= tokens_view(out@));
    (out, i)
}

/// Reads the replacement list of a macro.
pub fn read_replacement_list(tokens: &[Token], start: usize) -> (r: (Vec<Token>, usize))
    requires
        start <= tokens@.len(),
    ensures
        tokens_view(r.0@) == body_tokens(tokens_view(tokens@), start as int),
        r.1 == body_end(tokens_view(tokens@), start as int),
        start <= r.1 <= tokens@.len(),
{
    let ghost ts = tokens_view(tokens@);
    let mut out: Vec<Token> = Vec::new();
    let mut i: usize = start;
    assert(tokens_view(out@) + body_tokens(ts, i as int) =~= body_tokens(ts, start as int));
    while i < tokens.len() && !matches!(tokens[i].kind, TokenKind::Newline)
        invariant
            start <= i <= tokens@.len(),
            ts == tokens_view(tokens@),
            tokens_view(out@) + body_tokens(ts, i as int) == body_tokens(ts, start as int),
            body_end(ts, i as int) == body_end(ts, start as int),
        decreases tokens@.len() - i,
    {
        if is_line_continuation(tokens, i) {
            i = i + 2;
        } else {
            let ghost before = tokens_view(out@);
            push_token(&mut out, tokens[i].clone());
            assert(before.push(ts[i as int]) + body_tokens(ts, i + 1) =~= before + (seq![
                ts[i as int],
            ] + body_tokens(ts, i + 1)));
            i = i + 1;
        }
    }
    assert(tokens_view(out@) + body_tokens(ts, i as int) =~= tokens_view(out@));
    (out, i)
}

fn skip_param_ws(tokens: &[Token], start: usize) -> (r: usize)
    requires
        start <= tokens@.len(),
    ensures
        r == skip_continuations(tokens_view(tokens@), start as int),
        start <= r <= tokens@.len(),
{
    let mut i: usize = start;
    while is_line_continuation(tokens, i)
        invariant
            start <= i <= tokens@.len(),
            skip_continuations(tokens_view(tokens@), i as int) == skip_continuations(
                tokens_view(tokens@),
                start as int,
            ),
        decreases tokens@.len() - i,
    {
        i = i + 2;
    }
    i
}

fn token_is_ellipsis(tokens: &[Token], i: usize) -> (r: bool)
    requires
        i <= tokens@.len(),
    ensures
        r == ellipsis_at(tokens_view(tokens@), i as int),
        r ==> i < after_ellipsis(tokens_view(tokens@), i as int) <= tokens@.len(),
{
    let n = tokens.len();
    if is_punct_at(tokens, i, "...") {
        return true;
    }
    n - i >= 3 && is_punct_at(tokens, i, ".") && is_punct_at(tokens, i + 1, ".") && is_punct_at(
        tokens,
        i + 2,
        ".",
    )
}

fn skip_ellipsis(tokens: &[Token], i: usize) -> (r: usize)
    requires
        ellipsis_at(tokens_view(tokens@), i as int),
        after_ellipsis(tokens_view(tokens@), i as int) <= tokens@.len(),
    ensures
        r == after_ellipsis(tokens_view(tokens@), i as int),
{
    let n = tokens.len();
    if is_punct_at(tokens, i, "...") {
        i + 1
    } else {
        i + 3
    }
}

/// The parameters of a macro.
pub enum Params {
    Good { params: Vec<String>, variadic: bool, end: usize },
    Bad { at: usize },
}

impl View for Params {
    type V = ParamsV;

    open spec fn view(&self) -> ParamsV {
        match *self {
            Params::Good { params, variadic, end } => ParamsV::Good {
                params: names_view(params@),
                variadic,
                end: end as int,
            },
            Params::Bad { at } => ParamsV::Bad { at: at as int },
        }
    }
}

fn finish_param_list_tail(tokens: &[Token], start: usize, params: Vec<String>) -> (r: Params)
    requires
        start <= tokens@.len(),
    ensures
        r@ == params_tail(tokens_view(tokens@), start as int, names_view(params@)),
        match r {
            Params::Good { params, variadic, end } => start < end <= tokens@.len(),
            Params::Bad { at } => start <= at <= tokens@.len(),
        },
{
    let mut i: usize = start;
    loop
        invariant
            start <= i <= tokens@.len(),
            params_tail(tokens_view(tokens@), i as int, names_view(params@)) == params_tail(
                tokens_view(tokens@),
                start as int,
                names_view(params@),
            ),
        decreases tokens@.len() - i,
    {
        let j = skip_param_ws(tokens, i);
        if is_punct_at(tokens, j, ")") {
            return Params::Good { params, variadic: true, end: j + 1 };
        }
        if at_line_end(tokens, j) {
            return Params::Bad { at: j };
        }
        i = j + 1;
    }
}

/// Reads the parameter list of a macro, from behind its parenthesis.
pub fn parse_macro_param_list(tokens: &[Token], start: usize) -> (r: Params)
    requires
        start <= tokens@.len(),
    ensures
        r@ == params_from(tokens_view(tokens@), start as int, Seq::empty()),
        match r {
            Params::Good { params, variadic, end } => start < end <= tokens@.len(),
            Params::Bad { at } => start <= at <= tokens@.len(),
        },
{
    let mut params: Vec<String> = Vec::new();
    let mut i: usize = start;
    assert(names_view(params@) =~= Seq::<Seq<char>>::empty());
    loop
        invariant
            start <= i <= tokens@.len(),
            params_from(tokens_view(tokens@), i as int, names_view(params@)) == params_from(
                tokens_view(tokens@),
                start as int,
                Seq::empty(),
            ),
        decreases tokens@.len() - i,
    {
        let j = skip_param_ws(tokens, i);
        if token_is_ellipsis(tokens, j) {
            push_name(&mut params, owned("__VA_ARGS__"));
            let k = skip_ellipsis(tokens, j);
            return finish_param_list_tail(tokens, k, params);
        }
        if is_punct_at(tokens, j, ")") {
            return Params::Good { params, variadic: false, end: j + 1 };
        }
        if j >= tokens.len() {
            return Params::Bad { at: j };
        }
        match &tokens[j].kind {
            TokenKind::Identifier(name) => {
                push_name(&mut params, name.clone());
            },
            _ => {
                return Params::Bad { at: j };
            },
        }
        let k = skip_param_ws(tokens, j + 1);
        if token_is_ellipsis(tokens, k) {
            let m = skip_ellipsis(tokens, k);
            return finish_param_list_tail(tokens, m, params);
        }
        if is_punct_at(tokens, k, ")") {
            return Params::Good { params, variadic: false, end: k + 1 };
        }
        if is_punct_at(tokens, k, ",") {
            i = k + 1;
        } else {
            return Params::Bad { at: k };
        }
    }
}

/// How many characters a name has, as far as a column can tell.
fn name_width(name: &str) -> (r: u32)
    ensures
        r == offset_u32(sat_usize(name@.len() as int)),
{
    let n = name.unicode_len();
    to_offset(n)
}

/// The parenthesis that opens the parameter list of the macro named at
/// `name_idx`.
pub fn parameter_list_open(tokens: &[Token], name_idx: usize) -> (r: Option<usize>)
    requires
        name_idx < tokens@.len(),
    ensures
        match r {
            Some(i) => list_open(tokens_view(tokens@), name_idx as int) == Some(i as int)
                && name_idx < i < tokens@.len(),
            None => list_open(tokens_view(tokens@), name_idx as int) is None,
        },
{
    let name = match &tokens[name_idx].kind {
        TokenKind::Identifier(s) => s,
        _ => {
            return None;
        },
    };
    let n = tokens.len();
    let mut line = tokens[name_idx].line;
    let mut col = add_u32(tokens[name_idx].col, name_width(name.as_str()));
    let mut i: usize = name_idx + 1;
    let ghost goal = list_open(tokens_view(tokens@), name_idx as int);
    while is_line_continuation(tokens, i) && tokens[i].line == line && tokens[i].col == col
        invariant
            name_idx < i <= tokens@.len(),
            open_at(tokens_view(tokens@), i as int, line, col) == goal,
        decreases tokens@.len() - i,
    {
        i = i + 2;
        if line < u32::MAX {
            line = line + 1;
        }
        col = 1;
    }
    if is_punct_at(tokens, i, "(") && tokens[i].line == line && tokens[i].col == col {
        Some(i)
    } else {
        None
    }
}

/// The arguments of a call.
pub enum Args {
    Good { args: Vec<Vec<Token>>, end: usize },
    Unterminated { at: usize },
}

impl View for Args {
    type V = ArgsV;

    open spec fn view(&self) -> ArgsV {
        match *self {
            Args::Good { args, end } => ArgsV::Good {
                args: token_lists_view(args@),
                end: end as int,
            },
            Args::Unterminated { at } => ArgsV::Unterminated { at: at as int },
        }
    }
}

/// Appends a list of tokens.
fn push_list(lists: &mut Vec<Vec<Token>>, list: Vec<Token>)
    ensures
        token_lists_view(final(lists)@) == token_lists_view(old(lists)@).push(
            tokens_view(list@),
        ),
{
    let ghost before = lists@;
    lists.push(list);
    assert(token_lists_view(lists@) =~= token_lists_view(before).push(tokens_view(list@)));
}

fn no_tokens() -> (r: Vec<Token>)
    ensures
        tokens_view(r@) == Seq::<TokenV>::empty(),
{
    let r: Vec<Token> = Vec::new();
    assert(tokens_view(r@) =~= Seq::<TokenV>::empty());
    r
}

fn no_lists() -> (r: Vec<Vec<Token>>)
    ensures
        token_lists_view(r@) == Seq::<Seq<TokenV>>::empty(),
{
    let r: Vec<Vec<Token>> = Vec::new();
    assert(token_lists_view(r@) =~= Seq::<Seq<TokenV>>::empty());
    r
}

/// Reads the arguments of the call whose name is just before `start`.
pub fn parse_macro_args(tokens: &[Token], start: usize) -> (r: Args)
    requires
        start <= tokens@.len(),
    ensures
        r@ == macro_args(tokens_view(tokens@), start as int),
        match r {
            Args::Good { args, end } => start <= end <= tokens@.len(),
            Args::Unterminated { at } => at < tokens@.len(),
        },
{
    let n = tokens.len();
    let j = find_non_newline(tokens, start);
    let mut args: Vec<Vec<Token>> = no_lists();
    if !is_punct_at(tokens, j, "(") {
        return Args::Good { args, end: j };
    }
    let mut current: Vec<Token> = no_tokens();
    let mut depth: usize = 0;
    let mut i: usize = j + 1;
    let ghost ts = tokens_view(tokens@);
    while i < tokens.len()
        invariant
            start <= i <= tokens@.len(),
            depth <= i,
            ts == tokens_view(tokens@),
            args_from(
                ts,
                i as int,
                depth as int,
                token_lists_view(args@),
                tokens_view(current@),
            ) == macro_args(ts, start as int),
        decreases tokens@.len() - i,
    {
        if is_line_continuation(tokens, i) {
            i = i + 2;
        } else if is_punct(&tokens[i], "(") {
            depth = depth + 1;
            push_token(&mut current, tokens[i].clone());
            i = i + 1;
        } else if is_punct(&tokens[i], ")") {
            if depth == 0 {
                push_list(&mut args, current);
                return Args::Good { args, end: i + 1 };
            }
            depth = depth - 1;
            push_token(&mut current, tokens[i].clone());
            i = i + 1;
        } else if depth == 0 && is_punct(&tokens[i], ",") {
            push_list(&mut args, current);
            current = no_tokens();
            i = i + 1;
        } else if matches!(tokens[i].kind, TokenKind::Eof) {
            return Args::Unterminated { at: i };
        } else {
            push_token(&mut current, tokens[i].clone());
            i = i + 1;
        }
    }
    Args::Good { args, end: i }
}

/// Reads the arguments of a call inside a condition.
pub fn parse_cond_macro_args(toks: &[Token], start: usize) -> (r: Option<(Vec<Vec<Token>>, usize)>)
    requires
        start <= toks@.len(),
    ensures
        match r {
            Some((args, end)) => cond_args(tokens_view(toks@), start as int) == Some(
                (token_lists_view(args@), end as int),
            ) && start < end <= toks@.len(),
            None => cond_args(tokens_view(toks@), start as int) is None,
        },
{
    let n = toks.len();
    if !is_punct_at(toks, start, "(") {
        return None;
    }
    let mut args: Vec<Vec<Token>> = no_lists();
    let mut current: Vec<Token> = no_tokens();
    let mut depth: usize = 0;
    let mut i: usize = start + 1;
    let ghost ts = tokens_view(toks@);
    while i < toks.len()
        invariant
            start < i <= toks@.len(),
            depth <= i,
            ts == tokens_view(toks@),
            cond_args_from(
                ts,
                i as int,
                depth as int,
                token_lists_view(args@),
                tokens_view(current@),
            ) == cond_args(ts, start as int),
        decreases toks@.len() - i,
    {
        if is_punct(&toks[i], "(") {
            depth = depth + 1;
            push_token(&mut current, toks[i].clone());
        } else if is_punct(&toks[i], ")") {
            if depth == 0 {
                push_list(&mut args, current);
                return Some((args, i + 1));
            }
            depth = depth - 1;
            push_token(&mut current, toks[i].clone());
        } else if depth == 0 && is_punct(&toks[i], ",") {
            push_list(&mut args, current);
            current = no_tokens();
        } else {
            push_token(&mut current, toks[i].clone());
        }
        i = i + 1;
    }
    None
}

/// The header that the tokens from `start` on name.
pub fn parse_include_header(tokens: &[Token], start: usize) -> (r: Option<String>)
    requires
        start <= tokens@.len(),
    ensures
        match r {
            Some(s) => header_name(tokens_view(tokens@), start as int) == Some(s@),
            None => header_name(tokens_view(tokens@), start as int) is None,
        },
{
    let j = find_non_newline(tokens, start);
    if j >= tokens.len() {
        return None;
    }
    match &tokens[j].kind {
        TokenKind::String(s) => {
            return Some(s.clone());
        },
        TokenKind::Punct(p) => {
            if !str_eq(p.as_str(), "<") {
                return None;
            }
        },
        _ => {
            return None;
        },
    }
    let ghost ts = tokens_view(tokens@);
    let mut header = String::new();
    let mut i: usize = j + 1;
    assert(header@ =~= Seq::<char>::empty());
    while i < tokens.len()
        invariant
            j < i <= tokens@.len(),
            ts == tokens_view(tokens@),
            angle_header(ts, i as int, header@) == header_name(ts, start as int),
        decreases tokens@.len() - i,
    {
        match &tokens[i].kind {
            TokenKind::Identifier(s) => {
                if str_eq(s.as_str(), ">") {
                    return None;
                }
                header.append(s.as_str());
            },
            TokenKind::Number(s) => {
                if str_eq(s.as_str(), ">") {
                    return None;
                }
                header.append(s.as_str());
            },
            TokenKind::Punct(s) => {
                if str_eq(s.as_str(), ">") {
                    return Some(header);
                }
                header.append(s.as_str());
            },
            _ => {
                return None;
            },
        }
        i = i + 1;
    }
    None
}

/// Lets every `__VA_ARGS__` go by the name of the parameter that collects
/// the rest.
pub fn alias_va_args(body: Vec<Token>, tail: &str) -> (r: Vec<Token>)
    ensures
        tokens_view(r@) == aliased(tokens_view(body@), tail@),
{
    let ghost all = aliased(tokens_view(body@), tail@);
    let mut out: Vec<Token> = no_tokens();
    let mut i: usize = 0;
    while i < body.len()
        invariant
            i <= body@.len(),
            all == aliased(tokens_view(body@), tail@),
            tokens_view(out@) == all.take(i as int),
        decreases body@.len() - i,
    {
        let mut t = body[i].clone();
        let is_va = match &t.kind {
            TokenKind::Identifier(n) => str_eq(n.as_str(), "__VA_ARGS__"),
            _ => false,
        };
        if is_va {
            t.kind = TokenKind::Identifier(owned(tail));
        }
        assert(t@ =~= all[i as int]);
        push_token(&mut out, t);
        i = i + 1;
    }
    assert(all.take(i as int) =~= all);
    out
}

} // verus!
