//! From a macro's body and the arguments of a call to its replacement.

use crate::preproc::line_map::{find_name, position_of};
use crate::preproc::token::{
    plain, push_clones, push_token, token_lists_view, tokens_view, KindV, Token, TokenKind, TokenV,
};
use crate::text::{cat2, names_view, owned, str_eq, subrange_push, take_push, with_names};
use vstd::prelude::*;

verus! {

broadcast use {subrange_push, take_push};

/// The kind of the token at `i`, if there is one.
pub open spec fn kind_at(ts: Seq<TokenV>, i: int) -> Option<KindV> {
    if 0 <= i < ts.len() {
        Some(ts[i].kind)
    } else {
        None
    }
}

/// Whether the token at `i` is the punctuation `p`.
pub open spec fn punct_at(ts: Seq<TokenV>, i: int, p: Seq<char>) -> bool {
    kind_at(ts, i) == Some(KindV::Punct(p))
}

/// Whether a token is the punctuation `p`.
pub fn is_punct(t: &Token, p: &str) -> (r: bool)
    ensures
        r == (t@.kind == KindV::Punct(p@)),
{
    match &t.kind {
        TokenKind::Punct(s) => str_eq(s.as_str(), p),
        _ => false,
    }
}

/// Whether there is a token at `i` and it is the punctuation `p`.
pub fn is_punct_at(ts: &[Token], i: usize, p: &str) -> (r: bool)
    ensures
        r == punct_at(tokens_view(ts@), i as int, p@),
        ts@.len() <= usize::MAX,
{
    i < ts.len() && is_punct(&ts[i], p)
}

/// Whether there is a token at `i` and it is a newline.
pub fn is_newline_at(ts: &[Token], i: usize) -> (r: bool)
    ensures
        r == (kind_at(tokens_view(ts@), i as int) == Some(KindV::Newline)),
        ts@.len() <= usize::MAX,
{
    i < ts.len() && matches!(ts[i].kind, TokenKind::Newline)
}

/// Every token of a replacement, as it comes out of the expansion of `name`
/// at `origin`.
pub open spec fn painted(ts: Seq<TokenV>, origin: TokenV, name: Seq<char>) -> Seq<TokenV> {
    Seq::new(ts.len(), |i: int| ts[i].painted(origin, name))
}

pub fn paint_replacement(tokens: &[Token], origin: &Token, name: &str) -> (r: Vec<Token>)
    ensures
        tokens_view(r@) == painted(tokens_view(tokens@), origin@, name@),
{
    let mut out: Vec<Token> = Vec::new();
    let mut i: usize = 0;
    let ghost all = painted(tokens_view(tokens@), origin@, name@);
    while i < tokens.len()
        invariant
            i <= tokens@.len(),
            all == painted(tokens_view(tokens@), origin@, name@),
            tokens_view(out@) == all.take(i as int),
        decreases tokens@.len() - i,
    {
        push_token(&mut out, tokens[i].with_macro_hide(origin, name));
        assert(all.take(i as int).push(all[i as int]) =~= all.take(i + 1));
        i = i + 1;
    }
    assert(all.take(i as int) =~= all);
    out
}

/// How many tokens the `##` at `i` takes: 0 where there is none.
pub open spec fn concat_width(ts: Seq<TokenV>, i: int) -> int {
    if punct_at(ts, i, "##"@) {
        1
    } else if kind_at(ts, i) == Some(KindV::Hash) && kind_at(ts, i + 1) == Some(KindV::Hash) {
        2
    } else {
        0
    }
}

pub fn concat_width_at(tokens: &[Token], i: usize) -> (r: usize)
    requires
        i < tokens@.len(),
    ensures
        r == concat_width(tokens_view(tokens@), i as int),
        i + r <= tokens@.len(),
{
    let n = tokens.len();
    if is_punct_at(tokens, i, "##") {
        return 1;
    }
    if matches!(tokens[i].kind, TokenKind::Hash) && i + 1 < n && matches!(
        tokens[i + 1].kind,
        TokenKind::Hash
    ) {
        return 2;
    }
    0
}

/// Whether parameter `idx` is the one that collects the rest.
pub open spec fn variadic_tail(params: Seq<Seq<char>>, variadic: bool, idx: int) -> bool {
    variadic && idx + 1 == params.len()
}

/// Whether an argument holds nothing but line ends.
pub open spec fn blank(arg: Seq<TokenV>) -> bool {
    forall|i: int| 0 <= i < arg.len() ==> (#[trigger] arg[i]).kind == KindV::Newline
}

/// Whether all arguments from `idx` on are blank.
pub open spec fn all_blank(args: Seq<Seq<TokenV>>, idx: int) -> bool {
    forall|i: int| idx <= i < args.len() ==> blank(#[trigger] args[i])
}

/// Whether a call leaves the arguments from `idx` on out, rather than giving
/// an empty one. A lone blank argument is none at all.
pub open spec fn omitted(args: Seq<Seq<TokenV>>, idx: int) -> bool {
    args.len() <= idx || (idx == 0 && args.len() == 1 && blank(args[0]))
}

pub fn is_variadic_tail(params: &Vec<String>, variadic: bool, idx: usize) -> (r: bool)
    ensures
        r == variadic_tail(names_view(params@), variadic, idx as int),
{
    let n = params.len();
    variadic && n > 0 && idx == n - 1
}

pub fn arg_is_blank(arg: &[Token]) -> (r: bool)
    ensures
        r == blank(tokens_view(arg@)),
{
    let mut i: usize = 0;
    while i < arg.len()
        invariant
            i <= arg@.len(),
            forall|j: int|
                0 <= j < i ==> (#[trigger] tokens_view(arg@)[j]).kind == KindV::Newline,
        decreases arg@.len() - i,
    {
        if !matches!(arg[i].kind, TokenKind::Newline) {
            assert(tokens_view(arg@)[i as int].kind != KindV::Newline);
            return false;
        }
        i = i + 1;
    }
    true
}

pub fn args_are_blank(args: &Vec<Vec<Token>>, idx: usize) -> (r: bool)
    ensures
        r == all_blank(token_lists_view(args@), idx as int),
{
    let mut i: usize = idx;
    while i < args.len()
        invariant
            idx <= i,
            forall|j: int| idx <= j < i ==> blank(#[trigger] token_lists_view(args@)[j]),
        decreases args@.len() - i,
    {
        if !arg_is_blank(args[i].as_slice()) {
            assert(!blank(token_lists_view(args@)[i as int]));
            return false;
        }
        i = i + 1;
    }
    true
}

pub fn varargs_omitted(args: &Vec<Vec<Token>>, idx: usize) -> (r: bool)
    ensures
        r == omitted(token_lists_view(args@), idx as int),
{
    if args.len() <= idx {
        return true;
    }
    idx == 0 && args.len() == 1 && arg_is_blank(args[0].as_slice())
}

/// The arguments from `from` up to `to`, a comma between each two. The
/// commas count as tokens of the body.
pub open spec fn spread(
    args: Seq<Seq<TokenV>>,
    from: int,
    to: int,
    comma: TokenV,
) -> Seq<TokenV>
    decreases to - from,
{
    if from >= to {
        Seq::empty()
    } else if from + 1 == to {
        args[from]
    } else {
        spread(args, from, to - 1, comma).push(comma) + args[to - 1]
    }
}

/// A call of a function-like macro, and its definition.
pub struct CallV {
    pub name: Seq<char>,
    pub origin: TokenV,
    pub body: Seq<TokenV>,
    pub params: Seq<Seq<char>>,
    pub args: Seq<Seq<TokenV>>,
    pub variadic: bool,
}

impl CallV {
    /// Which parameter the token at `i` of the body names, if any.
    pub open spec fn param_at(self, i: int) -> Option<int> {
        match kind_at(self.body, i) {
            Some(KindV::Identifier(n)) => if self.params.contains(n) {
                Some(position_of(self.params, n))
            } else {
                None
            },
            _ => None,
        }
    }

    /// What stands for parameter `idx`, named at `i` of the body.
    pub open spec fn argument(self, idx: int, i: int) -> Seq<TokenV> {
        if variadic_tail(self.params, self.variadic, idx) {
            let comma = plain(KindV::Punct(","@), self.body[i].line, self.body[i].col).painted(
                self.origin,
                self.name,
            );
            spread(self.args, idx, self.args.len() as int, comma)
        } else if idx < self.args.len() {
            self.args[idx]
        } else {
            Seq::empty()
        }
    }

    /// Whether nothing is given for parameter `idx`.
    pub open spec fn is_blank_param(self, idx: int) -> bool {
        if variadic_tail(self.params, self.variadic, idx) {
            all_blank(self.args, idx)
        } else {
            idx >= self.args.len() || blank(self.args[idx])
        }
    }

    /// `out` followed by what the body from `i` on is replaced by, the `##`
    /// operators still in it.
    ///
    /// A `##` before a parameter for which nothing is given disappears with
    /// it. Between a comma and the parameter that collects the rest it only
    /// says that the comma goes where those arguments are left out.
    pub open spec fn replaced_from(self, i: int, out: Seq<TokenV>) -> Seq<TokenV>
        decreases self.body.len() - i,
    {
        if i < 0 || i >= self.body.len() {
            out
        } else {
            let w = concat_width(self.body, i);
            let operand = if w > 0 {
                self.param_at(i + w)
            } else {
                None
            };
            let elides = operand is Some && variadic_tail(self.params, self.variadic, operand->0)
                && out.len() > 0 && out.last().kind == KindV::Punct(","@);
            if elides && omitted(self.args, operand->0) {
                self.replaced_from(i + w + 1, out.drop_last())
            } else if elides {
                self.replaced_from(i + w, out)
            } else if operand is Some && self.is_blank_param(operand->0) {
                self.replaced_from(i + w + 1, out)
            } else {
                match self.param_at(i) {
                    Some(idx) => self.replaced_from(i + 1, out + self.argument(idx, i)),
                    None => self.replaced_from(
                        i + 1,
                        out.push(self.body[i].painted(self.origin, self.name)),
                    ),
                }
            }
        }
    }

    /// What the call is replaced by, the `##` operators still in it.
    pub open spec fn replaced(self) -> Seq<TokenV> {
        self.replaced_from(0, Seq::empty())
    }
}

/// Which parameter a token names.
fn find_param(t: &Token, params: &Vec<String>) -> (r: Option<usize>)
    ensures
        match r {
            Some(idx) => t@.kind is Identifier && names_view(params@).contains(
                t@.kind->Identifier_0,
            ) && idx == position_of(names_view(params@), t@.kind->Identifier_0) && idx
                < params@.len(),
            None => !(t@.kind is Identifier && names_view(params@).contains(
                t@.kind->Identifier_0,
            )),
        },
{
    match &t.kind {
        TokenKind::Identifier(n) => {
            let idx = find_name(params, n.as_str());
            if idx < params.len() {
                Some(idx)
            } else {
                None
            }
        },
        _ => None,
    }
}

/// Replaces the parameters in a macro's body by the arguments of a call.
pub fn substitute_macro(
    macro_name: &str,
    origin: &Token,
    body: &[Token],
    params: &Vec<String>,
    args: &Vec<Vec<Token>>,
    variadic: bool,
) -> (r: Vec<Token>)
    ensures
        tokens_view(r@) == (CallV {
            name: macro_name@,
            origin: origin@,
            body: tokens_view(body@),
            params: names_view(params@),
            args: token_lists_view(args@),
            variadic,
        }).replaced(),
{
    let ghost call = CallV {
        name: macro_name@,
        origin: origin@,
        body: tokens_view(body@),
        params: names_view(params@),
        args: token_lists_view(args@),
        variadic,
    };
    let mut out: Vec<Token> = Vec::new();
    let mut i: usize = 0;
    assert(tokens_view(out@) =~= Seq::<TokenV>::empty());
    while i < body.len()
        invariant
            i <= body@.len(),
            call == (CallV {
                name: macro_name@,
                origin: origin@,
                body: tokens_view(body@),
                params: names_view(params@),
                args: token_lists_view(args@),
                variadic,
            }),
            call.replaced_from(i as int, tokens_view(out@)) == call.replaced(),
        decreases body@.len() - i,
    {
        let ghost before = tokens_view(out@);
        let w = concat_width_at(body, i);
        if w > 0 && i + w < body.len() {
            if let Some(idx) = find_param(&body[i + w], params) {
                let is_va_tail = is_variadic_tail(params, variadic, idx);
                let after_comma = out.len() > 0 && is_punct(&out[out.len() - 1], ",");
                assert(after_comma == (before.len() > 0 && before.last().kind == KindV::Punct(
                    ","@,
                )));
                if is_va_tail && after_comma {
                    if varargs_omitted(args, idx) {
                        out.pop();
                        assert(tokens_view(out@) =~= before.drop_last());
                        i = i + w + 1;
                    } else {
                        i = i + w;
                    }
                    continue ;
                }
                let nothing = if is_va_tail {
                    args_are_blank(args, idx)
                } else {
                    idx >= args.len() || arg_is_blank(args[idx].as_slice())
                };
                if nothing {
                    i = i + w + 1;
                    continue ;
                }
            }
        }
        match find_param(&body[i], params) {
            Some(idx) => {
                if is_variadic_tail(params, variadic, idx) {
                    let ghost comma = plain(KindV::Punct(","@), body@[i as int].line, body@[i
                        as int].col).painted(origin@, macro_name@);
                    let mut ai: usize = idx;
                    assert(before + spread(call.args, idx as int, ai as int, comma) =~= before);
                    while ai < args.len()
                        invariant
                            i < body@.len(),
                            idx <= ai,
                            ai <= args@.len() || ai == idx,
                            call.args == token_lists_view(args@),
                            comma == plain(
                                KindV::Punct(","@),
                                body@[i as int].line,
                                body@[i as int].col,
                            ).painted(origin@, macro_name@),
                            tokens_view(out@) == before + spread(
                                call.args,
                                idx as int,
                                ai as int,
                                comma,
                            ),
                        decreases args@.len() - ai,
                    {
                        let ghost sofar = spread(call.args, idx as int, ai as int, comma);
                        if ai > idx {
                            let sep = Token::new(
                                TokenKind::Punct(owned(",")),
                                body[i].line,
                                body[i].col,
                            );
                            push_token(&mut out, sep.with_macro_hide(origin, macro_name));
                            assert(tokens_view(out@) =~= before + sofar.push(comma));
                        }
                        push_clones(&mut out, args[ai].as_slice(), 0, args[ai].len());
                        proof {
                            let arg = tokens_view(args@[ai as int]@);
                            assert(arg.subrange(0, arg.len() as int) =~= arg);
                            assert(call.args[ai as int] == arg);
                            if ai > idx {
                                assert(before + sofar.push(comma) + arg =~= before + (sofar.push(
                                    comma,
                                ) + arg));
                            } else {
                                assert(sofar =~= Seq::<TokenV>::empty());
                                assert(before + sofar + arg =~= before + arg);
                            }
                        }
                        ai = ai + 1;
                    }
                    assert(spread(call.args, idx as int, ai as int, comma) =~= spread(
                        call.args,
                        idx as int,
                        call.args.len() as int,
                        comma,
                    ));
                } else if idx < args.len() {
                    push_clones(&mut out, args[idx].as_slice(), 0, args[idx].len());
                    proof {
                        let arg = tokens_view(args@[idx as int]@);
                        assert(arg.subrange(0, arg.len() as int) =~= arg);
                    }
                }
                assert(tokens_view(out@) =~= before + call.argument(idx as int, i as int));
            },
            None => {
                push_token(&mut out, body[i].with_macro_hide(origin, macro_name));
            },
        }
        i = i + 1;
    }
    out
}

/// What a token contributes to a paste.
pub open spec fn paste_fragment(kind: KindV) -> Seq<char> {
    match kind {
        KindV::Identifier(s) => s,
        KindV::Number(s) => s,
        KindV::Punct(s) => if s == "##"@ {
            Seq::empty()
        } else {
            s
        },
        _ => Seq::empty(),
    }
}

/// The token that `##` makes of two.
pub open spec fn pasted(left: TokenV, right: TokenV) -> TokenV {
    TokenV {
        kind: KindV::Identifier(paste_fragment(left.kind) + paste_fragment(right.kind)),
        line: left.line,
        col: left.col,
        hidden: with_names(left.hidden, right.hidden),
    }
}

pub fn token_paste_fragment(kind: &TokenKind) -> (r: String)
    ensures
        r@ == paste_fragment(kind@),
{
    match kind {
        TokenKind::Identifier(s) => s.clone(),
        TokenKind::Number(s) => s.clone(),
        TokenKind::Punct(s) => if str_eq(s.as_str(), "##") {
            String::new()
        } else {
            s.clone()
        },
        _ => String::new(),
    }
}

pub fn paste_two_tokens(left: &Token, right: &Token) -> (r: Token)
    ensures
        r@ == pasted(left@, right@),
{
    let text = cat2(
        token_paste_fragment(&left.kind).as_str(),
        token_paste_fragment(&right.kind).as_str(),
    );
    Token {
        kind: TokenKind::Identifier(text),
        line: left.line,
        col: left.col,
        hidden: Token::union_hidden(left, right),
    }
}

/// One pass of `##` over the tokens from `i` on, with `done` already made:
/// each pastes the token before it with the one behind it, left to right.
/// One that lacks either operand disappears. The second result says whether
/// any paste was made.
pub open spec fn paste_pass(
    ts: Seq<TokenV>,
    i: int,
    done: Seq<TokenV>,
    any: bool,
) -> (Seq<TokenV>, bool)
    decreases ts.len() - i,
{
    if i < 0 || i >= ts.len() {
        (done, any)
    } else {
        let w = concat_width(ts, i);
        if w == 0 {
            paste_pass(ts, i + 1, done.push(ts[i]), any)
        } else if done.len() > 0 && i + w < ts.len() {
            paste_pass(
                ts,
                i + w + 1,
                done.drop_last().push(pasted(done.last(), ts[i + w])),
                true,
            )
        } else {
            paste_pass(ts, i + w, done, any)
        }
    }
}

/// A pass that pastes leaves fewer tokens.
pub proof fn paste_pass_shrinks(ts: Seq<TokenV>, i: int, done: Seq<TokenV>, any: bool)
    requires
        0 <= i,
    ensures
        ({
            let (r, p) = paste_pass(ts, i, done, any);
            let room = if i < ts.len() {
                ts.len() - i
            } else {
                0
            };
            &&& r.len() <= done.len() + room
            &&& p && !any ==> r.len() < done.len() + room
        }),
    decreases ts.len() - i,
{
    if i < ts.len() {
        let w = concat_width(ts, i);
        if w == 0 {
            paste_pass_shrinks(ts, i + 1, done.push(ts[i]), any);
        } else if done.len() > 0 && i + w < ts.len() {
            paste_pass_shrinks(
                ts,
                i + w + 1,
                done.drop_last().push(pasted(done.last(), ts[i + w])),
                true,
            );
        } else {
            paste_pass_shrinks(ts, i + w, done, any);
        }
    }
}

/// The tokens with every `##` carried out. A paste may make a new operator,
/// so this goes on until a pass makes no paste.
pub open spec fn concatenated(ts: Seq<TokenV>) -> Seq<TokenV>
    decreases ts.len(),
{
    let (next, any) = paste_pass(ts, 0, Seq::empty(), false);
    proof {
        paste_pass_shrinks(ts, 0, Seq::empty(), false);
    }
    if any {
        concatenated(next)
    } else {
        next
    }
}

/// Whether there is no `##` among tokens.
pub open spec fn without_pastes(ts: Seq<TokenV>) -> bool {
    forall|i: int| 0 <= i < ts.len() ==> #[trigger] concat_width(ts, i) == 0
}

/// Whether there is no `##` at the positions from `a` up to `b`.
spec fn plain_between(ts: Seq<TokenV>, a: int, b: int) -> bool {
    forall|i: int| a <= i < b ==> #[trigger] concat_width(ts, i) == 0
}

proof fn pastes_are_told(ts: Seq<TokenV>, i: int, done: Seq<TokenV>)
    ensures
        paste_pass(ts, i, done, true).1,
    decreases ts.len() - i,
{
    if 0 <= i < ts.len() {
        let w = concat_width(ts, i);
        if w == 0 {
            pastes_are_told(ts, i + 1, done.push(ts[i]));
        } else if done.len() > 0 && i + w < ts.len() {
            pastes_are_told(
                ts,
                i + w + 1,
                done.drop_last().push(pasted(done.last(), ts[i + w])),
            );
        } else {
            pastes_are_told(ts, i + w, done);
        }
    }
}

proof fn part_is_plain(ts: Seq<TokenV>, a: int, b: int)
    requires
        0 <= a <= b <= ts.len(),
        plain_between(ts, a, b),
    ensures
        without_pastes(ts.subrange(a, b)),
{
    let part = ts.subrange(a, b);
    assert forall|i: int| 0 <= i < part.len() implies #[trigger] concat_width(part, i) == 0 by {
        assert(concat_width(ts, a + i) == 0);
        assert(part[i] == ts[a + i]);
        if i + 1 < part.len() {
            assert(part[i + 1] == ts[a + i + 1]);
        }
    }
}

/// A pass that makes no paste, from where it has taken a token on.
proof fn rest_is_plain(ts: Seq<TokenV>, a: int, i: int)
    requires
        0 <= a < i <= ts.len(),
        plain_between(ts, a, i),
    ensures
        ({
            let (r, any) = paste_pass(ts, i, ts.subrange(a, i), false);
            !any ==> without_pastes(r)
        }),
    decreases ts.len() - i,
{
    let done = ts.subrange(a, i);
    if i >= ts.len() {
        part_is_plain(ts, a, i);
    } else {
        let w = concat_width(ts, i);
        if w == 0 {
            assert(done.push(ts[i]) =~= ts.subrange(a, i + 1));
            rest_is_plain(ts, a, i + 1);
        } else if i + w < ts.len() {
            pastes_are_told(
                ts,
                i + w + 1,
                done.drop_last().push(pasted(done.last(), ts[i + w])),
            );
        } else {
            assert(paste_pass(ts, i + w, done, false) == (done, false));
            part_is_plain(ts, a, i);
        }
    }
}

/// A pass that makes no paste, before it has taken a token.
proof fn all_is_plain(ts: Seq<TokenV>, i: int)
    requires
        0 <= i,
    ensures
        ({
            let (r, any) = paste_pass(ts, i, Seq::empty(), false);
            !any ==> without_pastes(r)
        }),
    decreases ts.len() - i,
{
    if i < ts.len() {
        let w = concat_width(ts, i);
        if w == 0 {
            assert(Seq::<TokenV>::empty().push(ts[i]) =~= ts.subrange(i, i + 1));
            rest_is_plain(ts, i, i + 1);
        } else {
            all_is_plain(ts, i + w);
        }
    }
}

proof fn plain_tokens_pass(ts: Seq<TokenV>, i: int)
    requires
        0 <= i <= ts.len(),
        without_pastes(ts),
    ensures
        paste_pass(ts, i, ts.take(i), false) == (ts, false),
    decreases ts.len() - i,
{
    if i < ts.len() {
        assert(concat_width(ts, i) == 0);
        assert(ts.take(i).push(ts[i]) =~= ts.take(i + 1));
        plain_tokens_pass(ts, i + 1);
    } else {
        assert(ts.take(i) =~= ts);
    }
}

/// Tokens without `##` are left as they are.
pub proof fn plain_tokens_stay(ts: Seq<TokenV>)
    requires
        without_pastes(ts),
    ensures
        concatenated(ts) == ts,
{
    assert(ts.take(0) =~= Seq::<TokenV>::empty());
    plain_tokens_pass(ts, 0);
}

/// Once every `##` has been carried out none is left, and carrying them out a
/// second time changes nothing.
pub proof fn no_paste_is_left(ts: Seq<TokenV>)
    ensures
        without_pastes(concatenated(ts)),
        concatenated(concatenated(ts)) == concatenated(ts),
    decreases ts.len(),
{
    let (next, any) = paste_pass(ts, 0, Seq::empty(), false);
    paste_pass_shrinks(ts, 0, Seq::empty(), false);
    if any {
        no_paste_is_left(next);
    } else {
        all_is_plain(ts, 0);
        plain_tokens_stay(next);
    }
}

/// Carries out every `##`.
pub fn apply_concatenation(input: Vec<Token>) -> (r: Vec<Token>)
    ensures
        tokens_view(r@) == concatenated(tokens_view(input@)),
{
    let mut tokens = input;
    loop
        invariant
            concatenated(tokens_view(tokens@)) == concatenated(tokens_view(input@)),
        decreases tokens@.len(),
    {
        let mut next: Vec<Token> = Vec::new();
        let mut any = false;
        let mut i: usize = 0;
        let ghost ts = tokens_view(tokens@);
        assert(tokens_view(next@) =~= Seq::<TokenV>::empty());
        while i < tokens.len()
            invariant
                i <= tokens@.len(),
                ts == tokens_view(tokens@),
                paste_pass(ts, i as int, tokens_view(next@), any) == paste_pass(
                    ts,
                    0,
                    Seq::empty(),
                    false,
                ),
            decreases tokens@.len() - i,
        {
            let ghost done = tokens_view(next@);
            let w = concat_width_at(tokens.as_slice(), i);
            if w > 0 {
                if let Some(left) = next.pop() {
                    assert(tokens_view(next@) =~= done.drop_last());
                    assert(done.last() == left@);
                    if i + w < tokens.len() {
                        push_token(&mut next, paste_two_tokens(&left, &tokens[i + w]));
                        i = i + w + 1;
                        any = true;
                    } else {
                        push_token(&mut next, left);
                        assert(tokens_view(next@) =~= done);
                        i = i + w;
                    }
                } else {
                    assert(tokens_view(next@) =~= done);
                    i = i + w;
                }
            } else {
                push_token(&mut next, tokens[i].clone());
                i = i + 1;
            }
        }
        proof {
            paste_pass_shrinks(ts, 0, Seq::empty(), false);
            assert(concatenated(ts) == if any {
                concatenated(tokens_view(next@))
            } else {
                tokens_view(next@)
            });
        }
        if !any {
            return next;
        }
        tokens = next;
    }
}

/// What a call of a function-like macro expands to before it is scanned
/// again.
pub open spec fn expansion(call: CallV) -> Seq<TokenV> {
    concatenated(call.replaced())
}

} // verus!
