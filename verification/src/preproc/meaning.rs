//! What definitions, conditionals and macros do to the text that follows them.

use crate::paths::{dir_of, file_name_of, joined};
use crate::preproc::condition::condition_holds;
use crate::preproc::directives::{
    body_end, body_tokens, continues_line, list_open, long_line, open_at, params_from,
    skip_continuations, skip_newlines, ParamsV,
};
use crate::preproc::lexer::lex;
use crate::preproc::line_map::position_from;
use crate::preproc::builtins::FALLBACK_COUNT;
use crate::preproc::macros::{body_of, MacroV};
use crate::preproc::run::{blank_state, initial_room, initial_state, string_result};
use crate::preproc::semantics::{UseV, MAX_CONDITION_STEPS, MAX_CONDITION_TOKENS};
use crate::preproc::state::{needs_space, token_text, ConfigV, ErrorV, OptionsV, StateV};
use crate::preproc::substitute::{
    concat_width, concatenated, expansion, painted, paste_pass, pasted, plain_tokens_stay,
    without_pastes, CallV,
};
use crate::preproc::token::{plain, KindV, TokenV};
use crate::preproc::words::{are_cuts, commas_part_arguments, pieces};
use crate::text::with_name;
use vstd::prelude::*;

verus! {

/// Whether the tokens from `i` up to `k` are the rest of a line: none of them
/// ends it or continues it, and it ends there.
pub open spec fn rest_of_line(ts: Seq<TokenV>, i: int, k: int) -> bool {
    &&& 0 <= i <= k <= ts.len()
    &&& forall|j: int|
        i <= j < k ==> (#[trigger] ts[j]).kind != KindV::Newline && ts[j].kind != KindV::Eof
            && ts[j].kind != KindV::Punct("\\"@)
    &&& k < ts.len() ==> ts[k].kind == KindV::Newline
}

proof fn body_is_rest(ts: Seq<TokenV>, i: int, k: int)
    requires
        rest_of_line(ts, i, k),
    ensures
        body_tokens(ts, i) == ts.subrange(i, k),
        body_end(ts, i) == k,
        long_line(ts, i) == ts.subrange(i, k),
    decreases k - i,
{
    if i < k {
        assert(ts[i].kind != KindV::Newline);
        body_is_rest(ts, i + 1, k);
        assert(seq![ts[i]] + ts.subrange(i + 1, k) =~= ts.subrange(i, k));
    } else {
        assert(ts.subrange(i, k) =~= Seq::<TokenV>::empty());
    }
}

/// `#define NAME tokens` makes the tokens of the line what the name stands for:
/// conditionals see the name from then on, and no other name changes.
pub proof fn definitions_take_effect(st: StateV, ts: Seq<TokenV>, i: int, k: int, name: Seq<char>)
    requires
        0 <= i < ts.len(),
        ts[i].kind == KindV::Identifier(name),
        rest_of_line(ts, i + 1, k),
        i + 1 < k ==> ts[i + 1].kind != KindV::Punct("("@),
    ensures
        ({
            let (t, r) = st.define(ts, i);
            &&& r == Ok::<int, ErrorV>(k)
            &&& t.macros == st.macros.insert(
                name,
                MacroV::Object { replacement: ts.subrange(i + 1, k) },
            )
            &&& t.is_defined(name)
            &&& forall|n: Seq<char>| n != name ==> #[trigger] t.is_defined(n) == st.is_defined(n)
            &&& t.out == st.out
            &&& t.conds == st.conds
            &&& t.diags == st.diags
        }),
{
    body_is_rest(ts, i + 1, k);
    assert(!continues_line(ts, i + 1)) by {
        if i + 1 < k {
            assert(ts[i + 1].kind != KindV::Punct("\\"@));
        }
    }
    assert(list_open(ts, i) is None);
}

/// Whether the tokens from `i` on are a list of names with commas between them
/// and a parenthesis behind the last.
pub open spec fn is_name_list(ts: Seq<TokenV>, i: int, names: Seq<Seq<char>>) -> bool {
    &&& names.len() > 0
    &&& 0 <= i
    &&& i + 2 * names.len() <= ts.len()
    &&& forall|j: int|
        0 <= j < names.len() ==> (#[trigger] ts[i + 2 * j]).kind == KindV::Identifier(names[j])
    &&& forall|j: int|
        0 <= j < names.len() - 1 ==> (#[trigger] ts[i + 2 * j + 1]).kind == KindV::Punct(","@)
    &&& ts[i + 2 * names.len() - 1].kind == KindV::Punct(")"@)
}

proof fn params_are_names(ts: Seq<TokenV>, i: int, names: Seq<Seq<char>>, j: int)
    requires
        is_name_list(ts, i, names),
        0 <= j < names.len(),
    ensures
        params_from(ts, i + 2 * j, names.take(j)) == (ParamsV::Good {
            params: names,
            variadic: false,
            end: i + 2 * names.len(),
        }),
    decreases names.len() - j,
{
    reveal_strlit("\\");
    reveal_strlit("...");
    reveal_strlit(".");
    reveal_strlit(")");
    reveal_strlit(",");
    assert("\\"@[0] == '\\' && ")"@[0] == ')' && ","@[0] == ',');
    assert("..."@.len() == 3 && "."@[0] == '.' && ")"@.len() == 1 && ","@.len() == 1);
    let at = i + 2 * j;
    assert(ts[at].kind == KindV::Identifier(names[j]));
    assert(names.take(j).push(names[j]) =~= names.take(j + 1));
    if j < names.len() - 1 {
        assert(ts[i + 2 * j + 1].kind == KindV::Punct(","@));
        params_are_names(ts, i, names, j + 1);
    } else {
        assert(ts[at + 1].kind == KindV::Punct(")"@));
        assert(names.take(j + 1) =~= names);
    }
    assert(!continues_line(ts, at) && !continues_line(ts, at + 1));
    assert(skip_continuations(ts, at) == at);
    assert(skip_continuations(ts, at + 1) == at + 1);
}

/// `#define NAME(a, b) tokens`, the parenthesis directly behind the name, makes
/// a macro with those parameters that stands for the tokens of the line.
pub proof fn definitions_with_parameters_take_effect(
    st: StateV,
    ts: Seq<TokenV>,
    i: int,
    k: int,
    name: Seq<char>,
    params: Seq<Seq<char>>,
)
    requires
        0 <= i < ts.len(),
        ts[i].kind == KindV::Identifier(name),
        is_name_list(ts, i + 2, params),
        ts[i + 1].kind == KindV::Punct("("@),
        ts[i + 1].line == ts[i].line,
        ts[i + 1].col == ts[i].col + name.len(),
        rest_of_line(ts, i + 2 + 2 * params.len(), k),
    ensures
        ({
            let (t, r) = st.define(ts, i);
            &&& r == Ok::<int, ErrorV>(k)
            &&& t.macros == st.macros.insert(
                name,
                MacroV::Function {
                    params,
                    replacement: ts.subrange(i + 2 + 2 * params.len(), k),
                    variadic: false,
                },
            )
            &&& t.is_defined(name)
            &&& t.out == st.out
            &&& t.conds == st.conds
        }),
{
    reveal_strlit("\\");
    reveal_strlit("(");
    assert(params.take(0) =~= Seq::<Seq<char>>::empty());
    params_are_names(ts, i + 2, params, 0);
    body_is_rest(ts, i + 2 + 2 * params.len(), k);
    assert(!continues_line(ts, i + 1));
    assert(open_at(ts, i + 1, ts[i + 1].line, ts[i + 1].col) == Some(i + 1));
}

/// `#undef NAME` takes the name back: nothing expands it, and conditionals do
/// not see it.
pub proof fn definitions_are_taken_back(st: StateV, ts: Seq<TokenV>, i: int, name: Seq<char>)
    requires
        0 <= i < ts.len(),
        ts[i].kind == KindV::Identifier(name),
    ensures
        ({
            let t = st.undef(ts, i).0;
            &&& !t.macros.contains_key(name)
            &&& !t.is_defined(name)
            &&& t.macros == st.macros.remove(name)
            &&& t.out == st.out
            &&& t.conds == st.conds
        }),
{
}

proof fn directives_differ()
    ensures
        "include"@.len() == 7,
        "define"@.len() == 6 && "define"@[0] == 'd',
        "ifdef"@.len() == 5 && "ifdef"@[0] == 'i',
        "ifndef"@.len() == 6 && "ifndef"@[0] == 'i',
        "if"@.len() == 2,
        "elif"@.len() == 4 && "elif"@[1] == 'l' && "elif"@[2] == 'i',
        "else"@.len() == 4 && "else"@[1] == 'l' && "else"@[2] == 's',
        "endif"@.len() == 5 && "endif"@[0] == 'e',
        "undef"@.len() == 5 && "undef"@[0] == 'u',
        "line"@.len() == 4 && "line"@[1] == 'i',
        "pragma"@.len() == 6 && "pragma"@[0] == 'p',
{
    reveal_strlit("include");
    reveal_strlit("define");
    reveal_strlit("ifdef");
    reveal_strlit("ifndef");
    reveal_strlit("if");
    reveal_strlit("elif");
    reveal_strlit("else");
    reveal_strlit("endif");
    reveal_strlit("undef");
    reveal_strlit("line");
    reveal_strlit("pragma");
}

/// Whether a directive of a name stands at a position.
pub open spec fn is_directive(ts: Seq<TokenV>, start: int, name: Seq<char>) -> bool {
    &&& 0 <= start
    &&& start + 1 < ts.len()
    &&& ts[start].kind == KindV::Hash
    &&& ts[start + 1].kind == KindV::Identifier(name)
}

/// In active text `#ifdef NAME` makes what follows active if and only if the
/// name is defined, and `#ifndef NAME` if and only if it is not.
pub proof fn ifdef_looks_at_the_name(
    st: StateV,
    ts: Seq<TokenV>,
    start: int,
    room: nat,
    depth: int,
    name: Seq<char>,
)
    requires
        st.is_active(),
        is_directive(ts, start, "ifdef"@) || is_directive(ts, start, "ifndef"@),
        start + 2 < ts.len(),
        ts[start + 2].kind == KindV::Identifier(name),
    ensures
        ({
            let (t, r) = st.directive(ts, start, room, depth);
            let there = st.macros.contains_key(name) && !st.fallbacks.contains(name);
            &&& r is Ok
            &&& is_directive(ts, start, "ifdef"@) ==> t.is_active() == there
            &&& is_directive(ts, start, "ifndef"@) ==> t.is_active() == !there
            &&& t.conds.len() == st.conds.len() + 1
            &&& t.macros == st.macros
            &&& t.out == st.out
        }),
{
    directives_differ();
    assert(skip_newlines(ts, start + 1) == start + 1);
    assert(skip_newlines(ts, start + 2) == start + 2);
}

/// In active text `#if` makes what follows active if and only if its condition
/// holds.
pub proof fn if_looks_at_the_condition(
    st: StateV,
    ts: Seq<TokenV>,
    start: int,
    room: nat,
    depth: int,
)
    requires
        st.is_active(),
        is_directive(ts, start, "if"@),
    ensures
        ({
            let (t, r) = st.directive(ts, start, room, depth);
            &&& r is Ok
            &&& t.is_active() == st.condition(ts, start + 2).1
            &&& t.conds.len() == st.conds.len() + 1
            &&& t.macros == st.macros
            &&& t.out == st.out
        }),
{
    directives_differ();
    assert(skip_newlines(ts, start + 1) == start + 1);
}

/// `#elif` makes what follows active if and only if the text around is, no
/// branch before it was, no `#else` came before it, and its condition holds.
pub proof fn elif_looks_at_the_condition(
    st: StateV,
    ts: Seq<TokenV>,
    start: int,
    room: nat,
    depth: int,
)
    requires
        st.conds.len() > 0,
        is_directive(ts, start, "elif"@),
    ensures
        ({
            let (t, r) = st.directive(ts, start, room, depth);
            let f = st.conds.last();
            &&& r is Ok
            &&& t.is_active() == (f.parent_active && !f.taken && !f.else_seen && st.condition(
                ts,
                start + 2,
            ).1)
            &&& t.conds.len() == st.conds.len()
            &&& t.macros == st.macros
            &&& t.out == st.out
        }),
{
    directives_differ();
    assert(skip_newlines(ts, start + 1) == start + 1);
}

/// Whether none of the tokens from `i` up to `k` is a name.
pub open spec fn no_names(ts: Seq<TokenV>, i: int, k: int) -> bool {
    forall|j: int| i <= j < k ==> !((#[trigger] ts[j]).kind is Identifier)
}

proof fn plain_tokens_pass(
    st: StateV,
    work: Seq<TokenV>,
    i: int,
    k: int,
    out: Seq<TokenV>,
    steps: int,
)
    requires
        0 <= i <= k <= work.len(),
        no_names(work, i, k),
        work.len() <= MAX_CONDITION_TOKENS,
        out.len() + (k - i) <= MAX_CONDITION_TOKENS,
        0 <= steps,
        steps + (k - i) <= MAX_CONDITION_STEPS,
    ensures
        st.condition_tokens(work, i, out, steps) == st.condition_tokens(
            work,
            k,
            out + work.subrange(i, k),
            steps + (k - i),
        ),
    decreases k - i,
{
    if i < k {
        assert(!(work[i].kind is Identifier));
        plain_tokens_pass(st, work, i + 1, k, out.push(work[i]), steps + 1);
        assert(out.push(work[i]) + work.subrange(i + 1, k) =~= out + work.subrange(i, k));
    } else {
        assert(out + work.subrange(i, k) =~= out);
    }
}

/// A condition without names is what its tokens come to.
pub proof fn plain_conditions_are_evaluated(st: StateV, ts: Seq<TokenV>, i: int, k: int)
    requires
        rest_of_line(ts, i, k),
        no_names(ts, i, k),
        k - i <= MAX_CONDITION_TOKENS,
    ensures
        st.condition(ts, i) == (st, condition_holds(ts.subrange(i, k))),
{
    body_is_rest(ts, i, k);
    let work = ts.subrange(i, k);
    assert(no_names(work, 0, work.len() as int));
    plain_tokens_pass(st, work, 0, work.len() as int, Seq::empty(), 0);
    assert(Seq::<TokenV>::empty() + work.subrange(0, work.len() as int) =~= work);
}

/// `defined NAME` and `defined(NAME)` in a condition are 1 where the name is
/// defined and 0 where it is not.
pub proof fn defined_asks_for_the_name(
    st: StateV,
    ts: Seq<TokenV>,
    i: int,
    k: int,
    at: int,
    name: Seq<char>,
)
    requires
        rest_of_line(ts, i, k),
        k - i <= MAX_CONDITION_TOKENS,
        i <= at,
        ts[at].kind == KindV::Identifier("defined"@),
        ({
            ||| at + 2 <= k && ts[at + 1].kind == KindV::Identifier(name) && no_names(
                ts,
                at + 2,
                k,
            )
            ||| at + 4 <= k && ts[at + 1].kind == KindV::Punct("("@) && ts[at + 2].kind
                == KindV::Identifier(name) && ts[at + 3].kind == KindV::Punct(")"@) && no_names(
                ts,
                at + 4,
                k,
            )
        }),
        no_names(ts, i, at),
    ensures
        ({
            let next = if ts[at + 1].kind is Identifier {
                at + 2
            } else {
                at + 4
            };
            let there = st.macros.contains_key(name) && !st.fallbacks.contains(name);
            let digit = plain(
                KindV::Number(
                    if there {
                        "1"@
                    } else {
                        "0"@
                    },
                ),
                ts[at].line,
                ts[at].col,
            );
            st.condition(ts, i) == (
                st,
                condition_holds(ts.subrange(i, at).push(digit) + ts.subrange(next, k)),
            )
        }),
{
    reveal_strlit("(");
    body_is_rest(ts, i, k);
    let work = ts.subrange(i, k);
    let a = at - i;
    let next = if ts[at + 1].kind is Identifier {
        at + 2
    } else {
        at + 4
    };
    let n = next - i;
    let digit = plain(
        KindV::Number(
            if st.is_defined(name) {
                "1"@
            } else {
                "0"@
            },
        ),
        ts[at].line,
        ts[at].col,
    );
    assert(no_names(work, 0, a)) by {
        assert forall|j: int| 0 <= j < a implies !((#[trigger] work[j]).kind is Identifier) by {
            assert(work[j] == ts[i + j]);
        }
    }
    assert(no_names(work, n, work.len() as int)) by {
        assert forall|j: int| n <= j < work.len() implies !((
        #[trigger] work[j]).kind is Identifier) by {
            assert(work[j] == ts[i + j]);
        }
    }
    plain_tokens_pass(st, work, 0, a, Seq::empty(), 0);
    let pre = Seq::<TokenV>::empty() + work.subrange(0, a);
    assert(pre =~= ts.subrange(i, at));
    assert(work[a] == ts[at]);
    assert(work[a + 1] == ts[at + 1]);
    if !(ts[at + 1].kind is Identifier) {
        assert(work[a + 2] == ts[at + 2]);
        assert(work[a + 3] == ts[at + 3]);
    }
    assert(st.condition_tokens(work, a, pre, a) == st.condition_tokens(
        work,
        n,
        pre.push(digit),
        a + 1,
    ));
    plain_tokens_pass(st, work, n, work.len() as int, pre.push(digit), a + 1);
    let all = pre.push(digit) + work.subrange(n, work.len() as int);
    assert(all =~= ts.subrange(i, at).push(digit) + ts.subrange(next, k));
}

/// In a condition a name that stands for tokens without names is replaced by
/// them, each as it is but for what is hidden in it.
#[verifier::rlimit(40)]
pub proof fn names_in_conditions_are_replaced(
    st: StateV,
    ts: Seq<TokenV>,
    i: int,
    k: int,
    at: int,
    name: Seq<char>,
    replacement: Seq<TokenV>,
)
    requires
        rest_of_line(ts, i, k),
        i <= at < k,
        (k - i) + replacement.len() <= MAX_CONDITION_TOKENS,
        ts[at].kind == KindV::Identifier(name),
        !ts[at].hidden.contains(name),
        name != "defined"@,
        name != "__LINE__"@,
        st.is_defined(name),
        st.macros[name] == (MacroV::Object { replacement }),
        no_names(ts, i, at),
        no_names(ts, at + 1, k),
        no_names(replacement, 0, replacement.len() as int),
    ensures
        exists|mid: Seq<TokenV>|
            #[trigger] same_kinds(mid, replacement) && st.condition(ts, i) == (
                st,
                condition_holds(ts.subrange(i, at) + mid + ts.subrange(at + 1, k)),
            ),
{
    body_is_rest(ts, i, k);
    let work = ts.subrange(i, k);
    let a = at - i;
    let mid = painted(replacement, ts[at], name);
    assert(no_names(work, 0, a)) by {
        assert forall|j: int| 0 <= j < a implies !((#[trigger] work[j]).kind is Identifier) by {
            assert(work[j] == ts[i + j]);
        }
    }
    plain_tokens_pass(st, work, 0, a, Seq::empty(), 0);
    let pre = Seq::<TokenV>::empty() + work.subrange(0, a);
    assert(pre =~= ts.subrange(i, at));
    assert(work[a] == ts[at]);
    let next = work.take(a) + mid + work.skip(a + 1);
    assert(st.condition_tokens(work, a, pre, a) == st.condition_tokens(next, a, pre, a + 1));
    assert(no_names(next, a, next.len() as int)) by {
        assert forall|j: int| a <= j < next.len() implies !((
        #[trigger] next[j]).kind is Identifier) by {
            if j < a + mid.len() {
                assert(next[j] == mid[j - a]);
                assert(!(replacement[j - a].kind is Identifier));
            } else {
                assert(next[j] == ts[i + j - mid.len() + 1]);
            }
        }
    }
    plain_tokens_pass(st, next, a, next.len() as int, pre, a + 1);
    let all = pre + next.subrange(a, next.len() as int);
    assert(all =~= ts.subrange(i, at) + mid + ts.subrange(at + 1, k));
    assert(same_kinds(mid, replacement));
}

/// Whether tokens are of the same kinds, one for one.
pub open spec fn same_kinds(a: Seq<TokenV>, b: Seq<TokenV>) -> bool {
    a.len() == b.len() && forall|i: int| 0 <= i < a.len() ==> (#[trigger] a[i]).kind == b[i].kind
}

/// A text without its blanks.
pub open spec fn squeezed(s: Seq<char>) -> Seq<char> {
    s.filter(|c: char| c != ' ')
}

/// How a token is spelled in C.
pub open spec fn spelling(kind: KindV) -> Seq<char> {
    match kind {
        KindV::Identifier(s) => s,
        KindV::Number(s) => s,
        KindV::String(s) => seq!['"'] + s + seq!['"'],
        KindV::Char(s) => seq!['\''] + s + seq!['\''],
        KindV::Punct(s) => s,
        KindV::Hash => seq!['#'],
        KindV::Newline => seq!['\n'],
        KindV::Eof => Seq::empty(),
    }
}

/// The spellings of tokens, one behind the other, without blanks.
pub open spec fn spelled(ts: Seq<TokenV>) -> Seq<char>
    decreases ts.len(),
{
    if ts.len() == 0 {
        Seq::empty()
    } else {
        spelled(ts.drop_last()) + squeezed(spelling(ts.last().kind))
    }
}

proof fn squeezed_joins(a: Seq<char>, b: Seq<char>)
    ensures
        squeezed(a + b) == squeezed(a) + squeezed(b),
{
    Seq::filter_distributes_over_add(a, b, |c: char| c != ' ');
}

proof fn blank_is_squeezed(s: Seq<char>)
    ensures
        squeezed(s.push(' ')) == squeezed(s),
{
    reveal(Seq::filter);
    assert(s.push(' ').drop_last() =~= s);
}

/// A token is written as it is spelled, with at most a blank before it.
pub proof fn tokens_are_written_as_spelled(st: StateV, tok: TokenV)
    ensures
        squeezed(st.emit_token(tok).out) == squeezed(st.out) + squeezed(spelling(tok.kind)),
        st.emit_token(tok).macros == st.macros,
        st.emit_token(tok).conds == st.conds,
        st.emit_token(tok).fallbacks == st.fallbacks,
        st.emit_token(tok).cfg == st.cfg,
{
    reveal_strlit("\"");
    reveal_strlit("'");
    reveal_strlit("#");
    reveal_strlit("\n");
    assert("\""@ =~= seq!['"']);
    assert("'"@ =~= seq!['\'']);
    assert("#"@ =~= seq!['#']);
    assert("\n"@ =~= seq!['\n']);
    assert(token_text(tok.kind) == spelling(tok.kind));
    if tok.kind == KindV::Eof {
        reveal(Seq::filter);
        assert(squeezed(Seq::<char>::empty()) =~= Seq::<char>::empty());
        assert(squeezed(st.out) + Seq::<char>::empty() =~= squeezed(st.out));
    } else {
        blank_is_squeezed(st.out);
        squeezed_joins(st.out, spelling(tok.kind));
        squeezed_joins(st.out.push(' '), spelling(tok.kind));
    }
}

/// Two words in a row stay two words: a blank is put between them.
pub proof fn words_stay_apart(st: StateV, tok: TokenV)
    requires
        st.out.len() > 0,
        'a' <= st.out.last() <= 'z' || 'A' <= st.out.last() <= 'Z' || '0' <= st.out.last() <= '9'
            || st.out.last() == '_',
        tok.kind is Identifier || tok.kind is Number,
    ensures
        st.emit_token(tok).out == st.out + seq![' '] + spelling(tok.kind),
{
    assert(needs_space(st.out, tok.kind));
    assert(st.out.push(' ') =~= st.out + seq![' ']);
}

/// Whether a token is written as it is wherever it stands: it is no name, no `#`
/// and no end.
pub open spec fn is_plain(t: TokenV) -> bool {
    !(t.kind is Identifier) && t.kind != KindV::Hash && t.kind != KindV::Eof
}

proof fn plain_tokens_are_written(st: StateV, ts: Seq<TokenV>, i: int, depth: int)
    requires
        0 <= i <= ts.len(),
        st.is_active(),
        forall|j: int| i <= j < ts.len() ==> is_plain(#[trigger] ts[j]),
        st.expand(ts, i, depth).1 is Ok,
    ensures
        ({
            let t = st.expand(ts, i, depth).0;
            &&& squeezed(t.out) == squeezed(st.out) + spelled(ts.skip(i))
            &&& t.macros == st.macros
            &&& t.conds == st.conds
        }),
    decreases ts.len() - i,
{
    if i < ts.len() {
        let (counted, r) = st.count_token(ts[i].line);
        assert(is_plain(ts[i]));
        let next = counted.emit_token(ts[i]);
        tokens_are_written_as_spelled(counted, ts[i]);
        assert(counted.use_at(ts, i) is Nothing);
        assert(st.expand(ts, i, depth) == next.expand(ts, i + 1, depth));
        plain_tokens_are_written(next, ts, i + 1, depth);
        spelled_from_the_front(ts.skip(i));
        assert(ts.skip(i).skip(1) =~= ts.skip(i + 1));
        assert(squeezed(st.out) + squeezed(spelling(ts[i].kind)) + spelled(ts.skip(i + 1))
            =~= squeezed(st.out) + (squeezed(spelling(ts[i].kind)) + spelled(ts.skip(i + 1))));
    } else {
        assert(ts.skip(i) =~= Seq::<TokenV>::empty());
        assert(squeezed(st.out) + Seq::<char>::empty() =~= squeezed(st.out));
    }
}

proof fn spelled_from_the_front(ts: Seq<TokenV>)
    requires
        ts.len() > 0,
    ensures
        spelled(ts) == squeezed(spelling(ts[0].kind)) + spelled(ts.skip(1)),
    decreases ts.len(),
{
    let none = Seq::<char>::empty();
    if ts.len() == 1 {
        assert(ts.drop_last() =~= Seq::<TokenV>::empty());
        assert(ts.skip(1) =~= Seq::<TokenV>::empty());
        assert(none + squeezed(spelling(ts[0].kind)) =~= squeezed(spelling(ts[0].kind)) + none);
    } else {
        spelled_from_the_front(ts.drop_last());
        assert(ts.drop_last().skip(1) =~= ts.skip(1).drop_last());
        let a = squeezed(spelling(ts[0].kind));
        let b = spelled(ts.skip(1).drop_last());
        let c = squeezed(spelling(ts.last().kind));
        assert(ts.skip(1).last() == ts.last());
        assert(a + b + c =~= a + (b + c));
    }
}

proof fn spelled_same(a: Seq<TokenV>, b: Seq<TokenV>)
    requires
        same_kinds(a, b),
    ensures
        spelled(a) == spelled(b),
    decreases a.len(),
{
    if a.len() > 0 {
        spelled_same(a.drop_last(), b.drop_last());
        assert(a[a.len() - 1].kind == b[a.len() - 1].kind);
    }
}

/// In active text a name that stands for tokens is written as these tokens,
/// where none of them is a name itself.
pub proof fn names_are_written_as_what_they_stand_for(
    st: StateV,
    tok: TokenV,
    name: Seq<char>,
    replacement: Seq<TokenV>,
    depth: int,
)
    requires
        st.is_active(),
        tok.kind == KindV::Identifier(name),
        !tok.hidden.contains(name),
        st.macros.contains_key(name),
        st.macros[name] == (MacroV::Object { replacement }),
        forall|j: int| 0 <= j < replacement.len() ==> is_plain(#[trigger] replacement[j]),
        0 <= depth < 256,
        st.expand(seq![tok], 0, depth).1 is Ok,
    ensures
        squeezed(st.expand(seq![tok], 0, depth).0.out) == squeezed(st.out) + spelled(replacement),
{
    let ts = seq![tok];
    let (counted, r) = st.count_token(tok.line);
    let body = painted(replacement, tok, name);
    assert(counted.use_at(ts, 0) == UseV::Object { replacement: body });
    assert forall|j: int| 0 <= j < body.len() implies is_plain(#[trigger] body[j]) by {
        assert(is_plain(replacement[j]));
    }
    let (inner, ok) = counted.expand(body, 0, depth + 1);
    assert(ok is Ok);
    plain_tokens_are_written(counted, body, 0, depth + 1);
    assert(body.skip(0) =~= body);
    assert(same_kinds(body, replacement));
    spelled_same(body, replacement);
    assert(inner.expand(ts, 1, depth) == (inner, Ok::<(), ErrorV>(())));
}

/// In active text a name that stands for nothing is written as it is.
pub proof fn other_names_are_written_as_they_are(st: StateV, tok: TokenV, name: Seq<char>, depth: int)
    requires
        st.is_active(),
        tok.kind == KindV::Identifier(name),
        !st.macros.contains_key(name) || tok.hidden.contains(name),
        st.expand(seq![tok], 0, depth).1 is Ok,
    ensures
        squeezed(st.expand(seq![tok], 0, depth).0.out) == squeezed(st.out) + squeezed(name),
{
    let ts = seq![tok];
    let (counted, r) = st.count_token(tok.line);
    tokens_are_written_as_spelled(counted, tok);
    let next = counted.emit_token(tok);
    assert(counted.use_at(ts, 0) is Nothing);
    assert(next.expand(ts, 1, depth) == (next, Ok::<(), ErrorV>(())));
}

proof fn position_is_first(names: Seq<Seq<char>>, k: int, i: int)
    requires
        0 <= i <= k < names.len(),
        forall|j: int| 0 <= j < k ==> #[trigger] names[j] != names[k],
    ensures
        position_from(names, names[k], i) == k,
    decreases k - i,
{
    if i < k {
        assert(names[i] != names[k]);
        position_is_first(names, k, i + 1);
    }
}

/// What a token of a macro's body is replaced by: the argument for the parameter
/// that it names, or itself.
pub open spec fn stands_for(call: CallV, t: TokenV, r: Seq<TokenV>) -> bool {
    match t.kind {
        KindV::Identifier(n) => if call.params.contains(n) {
            exists|k: int|
                0 <= k < call.params.len() && #[trigger] call.params[k] == n && (forall|j: int|
                    0 <= j < k ==> #[trigger] call.params[j] != n) && r == call.args[k]
        } else {
            same_kinds(r, seq![t])
        },
        _ => same_kinds(r, seq![t]),
    }
}

/// Whether a body has no `##`.
pub open spec fn has_no_paste(body: Seq<TokenV>) -> bool {
    forall|i: int|
        0 <= i < body.len() ==> (#[trigger] body[i]).kind != KindV::Hash && body[i].kind
            != KindV::Punct("##"@)
}

proof fn replaced_goes_on(call: CallV, longer: CallV, i: int, out: Seq<TokenV>) -> (r: Seq<TokenV>)
    requires
        longer.body.len() == call.body.len() + 1,
        longer.body.take(call.body.len() as int) == call.body,
        longer == (CallV { body: longer.body, ..call }),
        has_no_paste(longer.body),
        !call.variadic,
        call.args.len() == call.params.len(),
        0 <= i <= call.body.len(),
    ensures
        longer.replaced_from(i, out) == call.replaced_from(i, out) + r,
        stands_for(call, longer.body.last(), r),
    decreases call.body.len() - i,
{
    let n = call.body.len() as int;
    let t = longer.body[i];
    assert(t.kind != KindV::Hash && t.kind != KindV::Punct("##"@));
    assert(concat_width(longer.body, i) == 0);
    if i < n {
        assert(call.body[i] == longer.body[i]);
        assert(concat_width(call.body, i) == 0);
        assert(call.param_at(i) == longer.param_at(i));
        match call.param_at(i) {
            Some(idx) => {
                assert(longer.argument(idx, i) == call.argument(idx, i));
                replaced_goes_on(call, longer, i + 1, out + call.argument(idx, i))
            },
            None => replaced_goes_on(
                call,
                longer,
                i + 1,
                out.push(call.body[i].painted(call.origin, call.name)),
            ),
        }
    } else {
        match longer.param_at(i) {
            Some(idx) => {
                let name = t.kind->Identifier_0;
                let k = first_position(call.params, name);
                position_is_first(call.params, k, 0);
                assert(idx == k);
                let after = out + call.args[k];
                assert(longer.argument(idx, i) == call.args[k]);
                assert(longer.replaced_from(i + 1, after) == after);
                assert(longer.replaced_from(i, out) == after);
                call.args[k]
            },
            None => {
                let p = t.painted(call.origin, call.name);
                assert(longer.replaced_from(i + 1, out.push(p)) == out.push(p));
                assert(out.push(p) =~= out + seq![p]);
                seq![p]
            },
        }
    }
}

proof fn first_position(names: Seq<Seq<char>>, name: Seq<char>) -> (k: int)
    requires
        names.contains(name),
    ensures
        0 <= k < names.len(),
        names[k] == name,
        forall|j: int| 0 <= j < k ==> #[trigger] names[j] != name,
    decreases names.len(),
{
    if names.drop_last().contains(name) {
        let k = first_position(names.drop_last(), name);
        assert forall|j: int| 0 <= j < k implies #[trigger] names[j] != name by {
            assert(names.drop_last()[j] != name);
        }
        k
    } else {
        let k = names.len() - 1;
        let m = choose|m: int| 0 <= m < names.len() && names[m] == name;
        assert(m == k) by {
            if m < k {
                assert(names.drop_last()[m] == name);
            }
        }
        assert forall|j: int| 0 <= j < k implies #[trigger] names[j] != name by {
            if names[j] == name {
                assert(names.drop_last()[j] == name);
            }
        }
        k
    }
}

/// In a call of a macro every token of the body that names a parameter is
/// replaced by the argument for it, and every other token stays as it is, in the
/// order of the body: a body with one more token comes to what it comes to
/// without it, and behind that to what the token stands for. An empty body comes
/// to nothing.
pub proof fn parameters_are_replaced_by_arguments(call: CallV, t: TokenV)
    requires
        has_no_paste(call.body.push(t)),
        !call.variadic,
        call.args.len() == call.params.len(),
    ensures
        exists|r: Seq<TokenV>| #[trigger]
            stands_for(call, t, r) && (CallV { body: call.body.push(t), ..call }).replaced()
                == call.replaced() + r,
        (CallV { body: Seq::empty(), ..call }).replaced() == Seq::<TokenV>::empty(),
{
    let longer = CallV { body: call.body.push(t), ..call };
    assert(longer.body.take(call.body.len() as int) =~= call.body);
    let r = replaced_goes_on(call, longer, 0, Seq::empty());
    assert(stands_for(call, t, r));
}

/// A header in quotes is looked for beside the file that names it, then in the
/// directories to search, from the first on, and else is the only file of that
/// name that is known; and where none of these is there it is not found.
pub proof fn headers_are_found_in_order(st: StateV, path: Seq<char>)
    requires
        path.len() > 0,
        path[0] != '/',
        !path.contains('\\'),
    ensures
        ({
            let beside = joined(dir_of(st.file), path);
            let dirs = st.cfg.include_paths;
            let tree = st.cfg.tree;
            let found = st.resolve(path).1;
            &&& tree.contains_key(beside) ==> found == Some(beside)
            &&& forall|k: int|
                0 <= k < dirs.len() && !tree.contains_key(beside) && #[trigger] is_in(
                    st.cfg,
                    dirs[k],
                    path,
                ) && (forall|j: int| 0 <= j < k ==> !#[trigger] is_in(st.cfg, dirs[j], path)) ==> found
                    == Some(joined(dirs[k], path))
            &&& !tree.contains_key(beside) && (forall|j: int|
                0 <= j < dirs.len() ==> !#[trigger] is_in(st.cfg, dirs[j], path)) ==> found == (
            match st.cfg.index {
                Some(index) => if index.contains_key(file_name_of(path)) && index[file_name_of(
                    path,
                )].len() == 1 {
                    Some(index[file_name_of(path)][0])
                } else {
                    None
                },
                None => None,
            })
        }),
{
    let beside = joined(dir_of(st.file), path);
    let dirs = st.cfg.include_paths;
    let noted = st.note_missing(beside);
    assert(noted.cfg == st.cfg);
    assert forall|k: int|
        0 <= k < dirs.len() && !st.cfg.tree.contains_key(beside) && #[trigger] is_in(
            st.cfg,
            dirs[k],
            path,
        ) && (forall|j: int| 0 <= j < k ==> !#[trigger] is_in(st.cfg, dirs[j], path)) implies
        st.resolve(path).1 == Some(joined(dirs[k], path)) by {
        search_finds(noted, path, 0, k);
    }
    if forall|j: int| 0 <= j < dirs.len() ==> !#[trigger] is_in(st.cfg, dirs[j], path) {
        search_fails(noted, path, 0);
    }
}

/// Whether a directory has a file of a path.
pub open spec fn is_in(cfg: ConfigV, dir: Seq<char>, path: Seq<char>) -> bool {
    cfg.tree.contains_key(joined(dir, path)) && cfg.tree[joined(dir, path)].is_file
}

proof fn search_finds(st: StateV, path: Seq<char>, i: int, k: int)
    requires
        0 <= i <= k < st.cfg.include_paths.len(),
        is_in(st.cfg, st.cfg.include_paths[k], path),
        forall|j: int| 0 <= j < k ==> !#[trigger] is_in(st.cfg, st.cfg.include_paths[j], path),
    ensures
        st.search(path, i).1 == Some(joined(st.cfg.include_paths[k], path)),
    decreases k - i,
{
    if i < k {
        assert(!is_in(st.cfg, st.cfg.include_paths[i], path));
        let next = st.note_missing(joined(st.cfg.include_paths[i], path));
        assert forall|j: int| 0 <= j < k implies !#[trigger] is_in(
            next.cfg,
            next.cfg.include_paths[j],
            path,
        ) by {
            assert(!is_in(st.cfg, st.cfg.include_paths[j], path));
        }
        search_finds(next, path, i + 1, k);
    }
}

proof fn search_fails(st: StateV, path: Seq<char>, i: int)
    requires
        0 <= i <= st.cfg.include_paths.len(),
        forall|j: int|
            0 <= j < st.cfg.include_paths.len() ==> !#[trigger] is_in(
                st.cfg,
                st.cfg.include_paths[j],
                path,
            ),
    ensures
        st.search(path, i).1 is None,
        st.search(path, i).0.cfg == st.cfg,
    decreases st.cfg.include_paths.len() - i,
{
    if i < st.cfg.include_paths.len() {
        assert(!is_in(st.cfg, st.cfg.include_paths[i], path));
        let next = st.note_missing(joined(st.cfg.include_paths[i], path));
        assert forall|j: int| 0 <= j < next.cfg.include_paths.len() implies !#[trigger] is_in(
            next.cfg,
            next.cfg.include_paths[j],
            path,
        ) by {
            assert(!is_in(st.cfg, st.cfg.include_paths[j], path));
        }
        search_fails(next, path, i + 1);
    }
}

/// Two words or numbers with `##` between them are one word, spelled as both.
pub proof fn pasted_words_are_one(a: TokenV, paste: TokenV, b: TokenV)
    requires
        a.kind is Identifier || a.kind is Number,
        b.kind is Identifier || b.kind is Number,
        paste.kind == KindV::Punct("##"@),
    ensures
        concatenated(seq![a, paste, b]).len() == 1,
        concatenated(seq![a, paste, b])[0].kind == KindV::Identifier(
            spelling(a.kind) + spelling(b.kind),
        ),
{
    let ts = seq![a, paste, b];
    let none = Seq::<TokenV>::empty();
    let one = pasted(a, b);
    assert(concat_width(ts, 0) == 0);
    assert(concat_width(ts, 1) == 1);
    assert(paste_pass(ts, 3, none.push(one), true) == (none.push(one), true));
    assert(none.push(a).drop_last().push(one) =~= none.push(one));
    assert(paste_pass(ts, 1, none.push(a), false) == (none.push(one), true));
    assert(paste_pass(ts, 0, none, false) == (none.push(one), true));
    let next = none.push(one);
    assert(without_pastes(next)) by {
        assert forall|i: int| 0 <= i < next.len() implies #[trigger] concat_width(next, i) == 0 by {
            assert(next[i] == one);
        }
    }
    plain_tokens_stay(next);
    assert(concatenated(ts) == next);
}

/// In active text the call of a macro is written as what its body comes to with
/// the arguments in place of the parameters, where no name is in that.
pub proof fn calls_of_macros_are_written(
    st: StateV,
    ts: Seq<TokenV>,
    cuts: Seq<int>,
    name: Seq<char>,
    params: Seq<Seq<char>>,
    replacement: Seq<TokenV>,
    depth: int,
)
    requires
        st.is_active(),
        are_cuts(ts, cuts),
        cuts[0] == 1,
        cuts.last() == ts.len() - 1,
        ts[0].kind == KindV::Identifier(name),
        ts[1].kind == KindV::Punct("("@),
        !ts[0].hidden.contains(name),
        st.macros.contains_key(name),
        st.macros[name] == (MacroV::Function { params, replacement, variadic: false }),
        0 <= depth < 256,
        st.expand(ts, 0, depth).1 is Ok,
        ({
            let call = CallV {
                name,
                origin: ts[0],
                body: replacement,
                params,
                args: pieces(ts, cuts, cuts.len() - 1),
                variadic: false,
            };
            &&& without_pastes(call.replaced())
            &&& forall|j: int|
                0 <= j < call.replaced().len() ==> is_plain(#[trigger] call.replaced()[j])
        }),
    ensures
        ({
            let call = CallV {
                name,
                origin: ts[0],
                body: replacement,
                params,
                args: pieces(ts, cuts, cuts.len() - 1),
                variadic: false,
            };
            squeezed(st.expand(ts, 0, depth).0.out) == squeezed(st.out) + spelled(call.replaced())
        }),
{
    let call = CallV {
        name,
        origin: ts[0],
        body: replacement,
        params,
        args: pieces(ts, cuts, cuts.len() - 1),
        variadic: false,
    };
    commas_part_arguments(ts, cuts);
    plain_tokens_stay(call.replaced());
    let body = expansion(call);
    assert(body == call.replaced());
    let (counted, r) = st.count_token(ts[0].line);
    assert(skip_newlines(ts, 1) == 1);
    assert(counted.use_at(ts, 0) == (UseV::Function {
        name,
        params,
        body: replacement,
        variadic: false,
    }));
    let (inner, ok) = counted.expand(body, 0, depth + 1);
    assert(ok is Ok);
    plain_tokens_are_written(counted, body, 0, depth + 1);
    assert(body.skip(0) =~= body);
    let end = ts.len() as int;
    assert(inner.expand(ts, end, depth) == (inner, Ok::<(), ErrorV>(())));
    assert(st.expand(ts, 0, depth) == inner.expand(ts, end, depth));
}

/// Whether a token of a file is written as it is: it is no end and no `#`, and no
/// name that stands for something else.
pub open spec fn is_copied(st: StateV, t: TokenV) -> bool {
    match t.kind {
        KindV::Identifier(name) => {
            &&& name != "__FILE__"@
            &&& name != "__LINE__"@
            &&& !st.macros.contains_key(name) || t.hidden.contains(name)
        },
        KindV::Hash => false,
        KindV::Eof => false,
        _ => true,
    }
}

/// Active text of a file in which nothing is to be replaced is written as it is.
pub proof fn plain_text_is_written(
    st: StateV,
    ts: Seq<TokenV>,
    i: int,
    e: int,
    room: nat,
    depth: int,
)
    requires
        0 <= i <= e <= ts.len(),
        e < ts.len() ==> ts[e].kind == KindV::Eof,
        st.is_active(),
        forall|j: int| i <= j < e ==> is_copied(st, #[trigger] ts[j]),
        st.tokens(ts, i, room, depth).1 is Ok,
    ensures
        ({
            let t = st.tokens(ts, i, room, depth).0;
            &&& squeezed(t.out) == squeezed(st.out) + spelled(ts.subrange(i, e))
            &&& t.macros == st.macros
            &&& t.conds == st.conds
            &&& t.cfg == st.cfg
        }),
    decreases e - i,
{
    if i < e {
        let (counted, r) = st.count_token(ts[i].line);
        assert(is_copied(st, ts[i]));
        let next = counted.emit_token(ts[i]);
        tokens_are_written_as_spelled(counted, ts[i]);
        assert(counted.use_at(ts, i) is Nothing);
        assert(st.tokens(ts, i, room, depth) == next.tokens(ts, i + 1, room, depth));
        assert forall|j: int| i + 1 <= j < e implies is_copied(next, #[trigger] ts[j]) by {
            assert(is_copied(st, ts[j]));
        }
        plain_text_is_written(next, ts, i + 1, e, room, depth);
        let rest = ts.subrange(i, e);
        spelled_from_the_front(rest);
        assert(rest.skip(1) =~= ts.subrange(i + 1, e));
        let a = squeezed(st.out);
        let b = squeezed(spelling(ts[i].kind));
        let c = spelled(ts.subrange(i + 1, e));
        assert(a + b + c =~= a + (b + c));
    } else {
        assert(ts.subrange(i, e) =~= Seq::<TokenV>::empty());
        assert(squeezed(st.out) + Seq::<char>::empty() =~= squeezed(st.out));
    }
}

/// In active text of a file a name that stands for tokens is written as these
/// tokens, where none of them is a name itself, before what follows.
pub proof fn names_of_files_are_replaced(
    st: StateV,
    ts: Seq<TokenV>,
    i: int,
    room: nat,
    depth: int,
    name: Seq<char>,
    replacement: Seq<TokenV>,
)
    requires
        0 <= i < ts.len(),
        st.is_active(),
        ts[i].kind == KindV::Identifier(name),
        name != "__FILE__"@,
        name != "__LINE__"@,
        !ts[i].hidden.contains(name),
        st.macros.contains_key(name),
        st.macros[name] == (MacroV::Object { replacement }),
        forall|j: int| 0 <= j < replacement.len() ==> is_plain(#[trigger] replacement[j]),
        0 <= depth < 256,
        st.tokens(ts, i, room, depth).1 is Ok,
    ensures
        exists|mid: StateV|
            #[trigger] squeezed(mid.out) == squeezed(st.out) + spelled(replacement) && mid.macros
                == st.macros && mid.conds == st.conds && st.tokens(ts, i, room, depth)
                == mid.tokens(ts, i + 1, room, depth),
{
    let (counted, r) = st.count_token(ts[i].line);
    let body = painted(replacement, ts[i], name);
    assert(counted.use_at(ts, i) == UseV::Object { replacement: body });
    assert forall|j: int| 0 <= j < body.len() implies is_plain(#[trigger] body[j]) by {
        assert(is_plain(replacement[j]));
    }
    let (inner, ok) = counted.expand(body, 0, depth + 1);
    assert(ok is Ok);
    plain_tokens_are_written(counted, body, 0, depth + 1);
    assert(body.skip(0) =~= body);
    assert(same_kinds(body, replacement));
    spelled_same(body, replacement);
    assert(squeezed(inner.out) == squeezed(st.out) + spelled(replacement));
}

proof fn failing_text_is_reported(
    st: StateV,
    ts: Seq<TokenV>,
    i: int,
    e: int,
    room: nat,
    depth: int,
)
    requires
        0 <= i <= e <= ts.len(),
        e < ts.len() ==> ts[e].kind == KindV::Eof,
        st.is_active(),
        forall|j: int| i <= j < e ==> is_copied(st, #[trigger] ts[j]),
    ensures
        st.tokens(ts, i, room, depth).1 is Err ==> st.tokens(ts, i, room, depth).0.diags.len()
            > st.diags.len(),
        st.tokens(ts, i, room, depth).0.cfg == st.cfg,
    decreases e - i,
{
    if i < e {
        let (counted, r) = st.count_token(ts[i].line);
        assert(is_copied(st, ts[i]));
        if r is Ok {
            let next = counted.emit_token(ts[i]);
            tokens_are_written_as_spelled(counted, ts[i]);
            assert(counted.use_at(ts, i) is Nothing);
            assert(st.tokens(ts, i, room, depth) == next.tokens(ts, i + 1, room, depth));
            assert forall|j: int| i + 1 <= j < e implies is_copied(next, #[trigger] ts[j]) by {
                assert(is_copied(st, ts[j]));
            }
            failing_text_is_reported(next, ts, i + 1, e, room, depth);
        }
    }
}

/// An `#include` in active text writes the text of the header in its place, where
/// the header is found and was not met before, and nothing in it is to be
/// replaced. Where that could not be done there is a warning.
pub proof fn headers_are_written_in_place(
    st: StateV,
    ts: Seq<TokenV>,
    i: int,
    room: nat,
    depth: int,
    name: Seq<char>,
    target: Seq<char>,
    text: Seq<char>,
)
    requires
        0 <= i < ts.len(),
        ts[i].kind == KindV::String(name),
        st.is_active(),
        st.cfg.inline,
        st.cfg.cache is None,
        st.resolve(name).1 == Some(target),
        st.cfg.tree.contains_key(target),
        st.cfg.tree[target].content == Ok::<Seq<char>, Seq<char>>(text),
        !st.guard.contains(st.cfg.tree[target].canonical),
        st.resolve(name).0.note_missing(target).expansion(st.cfg.tree[target].canonical) is None,
        room > 0,
        forall|j: int| 0 <= j < lex(text).len() - 1 ==> is_copied(st, #[trigger] lex(text)[j]),
        lex(text).len() > 0,
        lex(text).last().kind == KindV::Eof,
    ensures
        ({
            let (t, r) = st.include_(ts, i, room, depth);
            &&& r is Ok
            &&& t.diags == st.diags ==> squeezed(t.out) == squeezed(st.out) + spelled(
                lex(text).drop_last(),
            )
        }),
{
    assert(skip_newlines(ts, i) == i);
    assert(st.include_name(ts, i, depth) == (st, Ok::<Seq<char>, ErrorV>(name)));
    resolving_keeps(st, name);
    let (a, found) = st.resolve(name);
    let b = a.note_missing(target);
    assert(b == a);
    let canonical = st.cfg.tree[target].canonical;
    let opened = StateV { guard: with_name(b.guard, canonical), file: target, ..b };
    let body = lex(text);
    let e = body.len() - 1;
    assert forall|j: int| 0 <= j < e implies is_copied(opened, #[trigger] body[j]) by {
        assert(is_copied(st, body[j]));
    }
    let (read, r) = opened.tokens(body, 0, (room - 1) as nat, depth);
    failing_text_is_reported(opened, body, 0, e, (room - 1) as nat, depth);
    if r is Ok {
        plain_text_is_written(opened, body, 0, e, (room - 1) as nat, depth);
        assert(body.subrange(0, e) =~= body.drop_last());
    } else {
        let (t, ok) = st.include_(ts, i, room, depth);
        assert(t.diags.len() > st.diags.len());
    }
}

proof fn searching_keeps(st: StateV, path: Seq<char>, k: int)
    ensures
        ({
            let t = st.search(path, k).0;
            t == (StateV { missing: t.missing, ..st })
        }),
    decreases st.cfg.include_paths.len() - k,
{
    if 0 <= k < st.cfg.include_paths.len() {
        searching_keeps(st.note_missing(joined(st.cfg.include_paths[k], path)), path, k + 1);
    }
}

proof fn resolving_keeps(st: StateV, path: Seq<char>)
    ensures
        ({
            let t = st.resolve(path).0;
            t == (StateV { missing: t.missing, ..st })
        }),
{
    let candidate = if (path.len() > 0 && path[0] == '/') || path.contains('\\') {
        path
    } else {
        joined(dir_of(st.file), path)
    };
    searching_keeps(st.note_missing(candidate), path, 0);
}

proof fn defines_hold(
    st: StateV,
    defines: Seq<(Seq<char>, Seq<char>)>,
    n: int,
    table: Map<Seq<char>, MacroV>,
    i: int,
)
    requires
        0 <= i < n <= defines.len(),
        !table.contains_key(defines[i].0),
        forall|j: int| i < j < n ==> (#[trigger] defines[j]).0 != defines[i].0,
    ensures
        ({
            let t = st.with_defines(defines, n, table);
            &&& t.macros.contains_key(defines[i].0)
            &&& t.macros[defines[i].0] == (MacroV::Object { replacement: body_of(defines[i].1) })
            &&& !t.fallbacks.contains(defines[i].0)
        }),
    decreases n,
{
    if i < n - 1 {
        assert(defines[n - 1].0 != defines[i].0);
        defines_hold(st, defines, n - 1, table, i);
    }
}

proof fn fallbacks_give_way(st: StateV, n: int, name: Seq<char>)
    requires
        st.macros.contains_key(name),
        !st.fallbacks.contains(name),
    ensures
        st.with_fallbacks(n).macros.contains_key(name),
        st.with_fallbacks(n).macros[name] == st.macros[name],
        !st.with_fallbacks(n).fallbacks.contains(name),
    decreases n,
{
    if n > 0 {
        fallbacks_give_way(st, n - 1, name);
    }
}

/// A macro that is defined from outside is defined when the first token is read,
/// as the tokens of its value; of several definitions of one name the last counts.
pub proof fn names_defined_from_outside_are_defined(opts: OptionsV, file: Seq<char>, i: int)
    requires
        0 <= i < opts.defines.len(),
        forall|j: int|
            i < j < opts.defines.len() ==> (#[trigger] opts.defines[j]).0 != opts.defines[i].0,
        opts.shared matches Some(t) ==> !t.contains_key(opts.defines[i].0),
    ensures
        ({
            let st = initial_state(opts, file);
            let (name, value) = opts.defines[i];
            &&& st.is_defined(name)
            &&& st.macros[name] == (MacroV::Object {
                replacement: lex(value).filter(|t: TokenV| t.kind != KindV::Eof),
            })
        }),
{
    let blank = blank_state(opts, file);
    let n = opts.defines.len() as int;
    defines_hold(blank, opts.defines, n, blank.macros, i);
    fallbacks_give_way(
        blank.with_defines(opts.defines, n, blank.macros),
        FALLBACK_COUNT as int,
        opts.defines[i].0,
    );
}

proof fn defines_keep_the_rest(
    st: StateV,
    defines: Seq<(Seq<char>, Seq<char>)>,
    n: int,
    table: Map<Seq<char>, MacroV>,
)
    ensures
        st.with_defines(defines, n, table).conds == st.conds,
        st.with_defines(defines, n, table).out == st.out,
        st.with_defines(defines, n, table).diags == st.diags,
    decreases n,
{
    if n > 0 {
        defines_keep_the_rest(st, defines, n - 1, table);
    }
}

proof fn fallbacks_keep_the_rest(st: StateV, n: int)
    ensures
        st.with_fallbacks(n).conds == st.conds,
        st.with_fallbacks(n).out == st.out,
        st.with_fallbacks(n).diags == st.diags,
    decreases n,
{
    if n > 0 {
        fallbacks_keep_the_rest(st, n - 1);
    }
}

/// A text in which nothing is to be replaced comes out as it went in, but for
/// blanks and comments, unless there is a report.
pub proof fn plain_texts_come_out_as_they_went_in(
    source: Seq<char>,
    file: Seq<char>,
    opts: OptionsV,
)
    requires
        lex(source).len() > 0,
        lex(source).last().kind == KindV::Eof,
        forall|j: int|
            0 <= j < lex(source).len() - 1 ==> is_copied(
                initial_state(opts, file),
                #[trigger] lex(source)[j],
            ),
    ensures
        ({
            let r = string_result(source, file, opts);
            r.diagnostics.len() == 0 ==> squeezed(r.output) == spelled(lex(source).drop_last())
        }),
{
    let blank = blank_state(opts, file);
    let n = opts.defines.len() as int;
    defines_keep_the_rest(blank, opts.defines, n, blank.macros);
    fallbacks_keep_the_rest(
        blank.with_defines(opts.defines, n, blank.macros),
        FALLBACK_COUNT as int,
    );
    let st = initial_state(opts, file);
    let ts = lex(source);
    let e = ts.len() - 1;
    let (t, r) = st.tokens(ts, 0, initial_room(opts), 0);
    failing_text_is_reported(st, ts, 0, e, initial_room(opts), 0);
    if r is Ok {
        plain_text_is_written(st, ts, 0, e, initial_room(opts), 0);
        assert(ts.subrange(0, e) =~= ts.drop_last());
        reveal(Seq::filter);
        assert(squeezed(Seq::<char>::empty()) =~= Seq::<char>::empty());
        assert(squeezed(st.out) + spelled(ts.drop_last()) =~= spelled(ts.drop_last()));
    }
}

} // verus!
