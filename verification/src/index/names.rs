//! Names as they stand in sources.

use crate::text::{
    alphanumeric, byte_len, chars_of, end_of_trimmed, find_in, find_text, is_alphanumeric, is_white,
    owned, start_of_trimmed, string_of, subrange_push, take_push, trimmed, trimmed_end, white,
};
use vstd::prelude::*;

verus! {

broadcast use {subrange_push, take_push};

/// What is left of the first `n` characters of a qualified name without white
/// space and without what stands in angle brackets, and how many brackets are
/// open behind them.
pub open spec fn normal_prefix(text: Seq<char>, n: int) -> (Seq<char>, nat)
    decreases n,
{
    if n <= 0 {
        (Seq::empty(), 0)
    } else {
        let (out, depth) = normal_prefix(text, n - 1);
        let c = text[n - 1];
        if depth > 0 {
            if c == '<' {
                (out, depth + 1)
            } else if c == '>' {
                (out, (depth - 1) as nat)
            } else {
                (out, depth)
            }
        } else if c == '<' {
            (out, 1)
        } else if is_white(c) {
            (out, 0)
        } else {
            (out.push(c), 0)
        }
    }
}

/// A qualified name without white space and without template arguments.
pub open spec fn normal_name(text: Seq<char>) -> Seq<char> {
    normal_prefix(text, text.len() as int).0
}

/// A qualified name without white space and without template arguments.
pub fn normalize_qualified(text: &str) -> (r: String)
    ensures
        r@ == normal_name(text@),
{
    let cs = chars_of(text);
    let mut out = String::new();
    let mut depth: usize = 0;
    let mut i: usize = 0;
    assert(out@ =~= Seq::empty());
    while i < cs.len()
        invariant
            cs@ == text@,
            i <= cs@.len(),
            depth <= i,
            (out@, depth as nat) == normal_prefix(text@, i as int),
        decreases cs@.len() - i,
    {
        let c = cs[i];
        if depth > 0 {
            if c == '<' {
                depth = depth + 1;
            } else if c == '>' {
                depth = depth - 1;
            }
        } else if c == '<' {
            depth = 1;
        } else if !white(c) {
            out.push(c);
        }
        i = i + 1;
    }
    out
}

/// Where the bracket is that opens what closes at the end of the first `i`
/// characters, where `depth` brackets are closed behind them.
pub open spec fn opening(t: Seq<char>, i: int, depth: int) -> Option<int>
    decreases i,
{
    if i <= 0 {
        None
    } else if t[i - 1] == '>' {
        opening(t, i - 1, depth + 1)
    } else if t[i - 1] == '<' {
        if depth == 1 {
            Some(i - 1)
        } else {
            opening(t, i - 1, depth - 1)
        }
    } else {
        opening(t, i - 1, depth)
    }
}

/// A name without the template arguments at its end.
pub open spec fn without_args(text: Seq<char>) -> Seq<char> {
    let t = trimmed_end(text);
    if t.len() == 0 || t.last() != '>' {
        t
    } else {
        match opening(t, t.len() as int, 0) {
            Some(k) => trimmed_end(t.take(k)),
            None => t,
        }
    }
}

/// A name without the template arguments at its end.
pub fn strip_template_args(text: &str) -> (r: String)
    ensures
        r@ == without_args(text@),
{
    let cs = chars_of(text);
    assert(cs@.subrange(0, cs@.len() as int) =~= cs@);
    let n = end_of_trimmed(&cs, 0, cs.len());
    let ghost t = trimmed_end(text@);
    if n == 0 || cs[n - 1] != '>' {
        return string_of(&cs, 0, n);
    }
    let mut i: usize = n;
    let mut depth: usize = 0;
    while i > 0
        invariant
            i <= n <= cs@.len(),
            t == cs@.subrange(0, n as int),
            n > 0,
            t.last() == '>',
            t == trimmed_end(text@),
            cs@ == text@,
            depth <= n - i,
            i < n ==> depth >= 1,
            opening(t, i as int, depth as int) == opening(t, n as int, 0),
        decreases i,
    {
        let c = cs[i - 1];
        assert(t[i - 1] == c);
        if c == '>' {
            depth = depth + 1;
        } else if c == '<' {
            if depth == 1 {
                let k = end_of_trimmed(&cs, 0, i - 1);
                assert(t.take(i - 1) =~= cs@.subrange(0, i - 1));
                return string_of(&cs, 0, k);
            }
            depth = depth - 1;
        }
        i = i - 1;
    }
    string_of(&cs, 0, n)
}

/// The first characters of a text, from `i` on, that can stand in a name.
pub open spec fn name_end(s: Seq<char>, i: int) -> int
    decreases s.len() - i,
{
    if i < 0 || i >= s.len() || !(alphanumeric(s[i]) || s[i] == '_') {
        i
    } else {
        name_end(s, i + 1)
    }
}

/// The name that stands behind a keyword: the first name in what is between
/// the keyword and the next one like it. `anon` if the keyword is not there.
pub open spec fn tag_behind(text: Seq<char>, keyword: Seq<char>) -> Seq<char> {
    match find_text(text, keyword, 0) {
        Some(k) => {
            let from = k + keyword.len();
            let to = match find_text(text, keyword, from as int) {
                Some(j) => j,
                None => text.len() as int,
            };
            let rest = trimmed(text.subrange(from as int, to));
            rest.take(name_end(rest, 0))
        },
        None => "anon"@,
    }
}

proof fn name_end_bounds(s: Seq<char>, i: int)
    requires
        0 <= i <= s.len(),
    ensures
        i <= name_end(s, i) <= s.len(),
    decreases s.len() - i,
{
    if i < s.len() && (alphanumeric(s[i]) || s[i] == '_') {
        name_end_bounds(s, i + 1);
    }
}

/// The name that stands behind a keyword.
pub fn extract_tag_name(text: &str, keyword: &str) -> (r: String)
    ensures
        r@ == tag_behind(text@, keyword@),
{
    let cs = chars_of(text);
    let ks = chars_of(keyword);
    let n = cs.len();
    match find_in(&cs, &ks, 0) {
        Some(k) => {
            let from = k + ks.len();
            let to = match find_in(&cs, &ks, from) {
                Some(j) => j,
                None => n,
            };
            let a = start_of_trimmed(&cs, from, to);
            let b = end_of_trimmed(&cs, a, to);
            let ghost rest = trimmed(text@.subrange(from as int, to as int));
            assert(rest == cs@.subrange(a as int, b as int));
            let mut i: usize = a;
            while i < b && (is_alphanumeric(cs[i]) || cs[i] == '_')
                invariant
                    cs@ == text@,
                    rest == cs@.subrange(a as int, b as int),
                    a <= i <= b <= cs@.len(),
                    name_end(rest, i - a) == name_end(rest, 0),
                decreases b - i,
            {
                assert(rest[i - a] == cs@[i as int]);
                i = i + 1;
            }
            if i < b {
                assert(rest[i - a] == cs@[i as int]);
            }
            let r = string_of(&cs, a, i);
            assert(r@ =~= rest.take(i - a));
            r
        },
        None => owned("anon"),
    }
}

/// Whether a name is made of English letters, digits and underscores only,
/// and of one at least.
pub open spec fn plain_name(name: Seq<char>) -> bool {
    name.len() > 0 && forall|i: int| 0 <= i < name.len() ==> word_char(#[trigger] name[i])
}

pub open spec fn word_char(c: char) -> bool {
    ('0' <= c && c <= '9') || ('a' <= c && c <= 'z') || ('A' <= c && c <= 'Z') || c == '_'
}

/// Whether a name is made of English letters, digits and underscores only,
/// and of one at least.
pub fn is_plain_ident(name: &str) -> (r: bool)
    ensures
        r == plain_name(name@),
{
    let cs = chars_of(name);
    let mut i: usize = 0;
    while i < cs.len()
        invariant
            cs@ == name@,
            i <= cs@.len(),
            forall|j: int| 0 <= j < i ==> word_char(#[trigger] name@[j]),
        decreases cs@.len() - i,
    {
        let c = cs[i];
        if !(('0' <= c && c <= '9') || ('a' <= c && c <= 'z') || ('A' <= c && c <= 'Z') || c
            == '_') {
            assert(!word_char(name@[i as int]));
            return false;
        }
        i = i + 1;
    }
    cs.len() > 0
}

/// Whether the name of a callee looks like that of a macro: three or more
/// capitals, digits and underscores.
pub open spec fn shouted(name: Seq<char>) -> bool {
    &&& byte_len(name) > 2
    &&& forall|i: int| 0 <= i < name.len() ==> shout_char(#[trigger] name[i])
}

pub open spec fn shout_char(c: char) -> bool {
    ('0' <= c && c <= '9') || ('A' <= c && c <= 'Z') || c == '_'
}

proof fn shouted_len(name: Seq<char>)
    requires
        forall|i: int| 0 <= i < name.len() ==> shout_char(#[trigger] name[i]),
    ensures
        byte_len(name) == name.len(),
    decreases name.len(),
{
    if name.len() > 0 {
        assert(shout_char(name[name.len() - 1]));
        assert forall|i: int| 0 <= i < name.drop_last().len() implies shout_char(
            #[trigger] name.drop_last()[i],
        ) by {
            assert(shout_char(name[i]));
        }
        shouted_len(name.drop_last());
    }
}

/// Whether the name of a callee looks like that of a macro.
pub fn is_likely_macro_callee(name: &str) -> (r: bool)
    ensures
        r == shouted(name@),
{
    let cs = chars_of(name);
    let mut i: usize = 0;
    while i < cs.len()
        invariant
            cs@ == name@,
            i <= cs@.len(),
            forall|j: int| 0 <= j < i ==> shout_char(#[trigger] name@[j]),
        decreases cs@.len() - i,
    {
        let c = cs[i];
        if !(('0' <= c && c <= '9') || ('A' <= c && c <= 'Z') || c == '_') {
            assert(!shout_char(name@[i as int]));
            return false;
        }
        i = i + 1;
    }
    proof {
        shouted_len(name@);
    }
    cs.len() > 2
}

/// The first part of a qualified name.
pub open spec fn first_segment(name: Seq<char>) -> Seq<char> {
    match find_text(name, "::"@, 0) {
        Some(k) => name.take(k),
        None => name,
    }
}

/// The first part of a qualified name.
pub fn first_part(name: &str) -> (r: String)
    ensures
        r@ == first_segment(name@),
{
    let cs = chars_of(name);
    let ks = chars_of("::");
    match find_in(&cs, &ks, 0) {
        Some(k) => {
            let r = string_of(&cs, 0, k);
            assert(r@ =~= name@.take(k as int));
            r
        },
        None => owned(name),
    }
}

/// Where the parts of a qualified name end, from `i` on, but for the last.
pub open spec fn cuts(name: Seq<char>, i: int) -> Seq<int>
    decreases name.len() + 2 - i,
{
    match find_text(name, "::"@, i) {
        Some(k) => if i <= k < name.len() {
            seq![k] + cuts(name, k + 2)
        } else {
            Seq::empty()
        },
        None => Seq::empty(),
    }
}

/// Positions as numbers.
pub open spec fn as_ints(s: Seq<usize>) -> Seq<int> {
    Seq::new(s.len(), |i: int| s[i] as int)
}

/// Where the parts of a qualified name end, but for the last.
pub fn find_cuts(name: &Vec<char>) -> (r: Vec<usize>)
    ensures
        as_ints(r@) == cuts(name@, 0),
        forall|i: int| 0 <= i < r@.len() ==> #[trigger] r@[i] <= name@.len(),
{
    proof {
        reveal_strlit("::");
    }
    let ks = chars_of("::");
    let n = name.len();
    let mut out: Vec<usize> = Vec::new();
    let mut i: usize = 0;
    let mut done = false;
    assert(as_ints(out@) + cuts(name@, 0) =~= cuts(name@, 0));
    while !done
        invariant
            ks@ == "::"@,
            ks@.len() == 2,
            i <= n == name@.len(),
            !done ==> as_ints(out@) + cuts(name@, i as int) == cuts(name@, 0),
            done ==> as_ints(out@) == cuts(name@, 0),
            forall|j: int| 0 <= j < out@.len() ==> #[trigger] out@[j] <= name@.len(),
        decreases (if done { 0int } else { name@.len() - i + 1 }),
    {
        match find_in(name, &ks, i) {
            Some(k) => {
                let ghost before = out@;
                out.push(k);
                assert(as_ints(out@) =~= as_ints(before).push(k as int));
                assert(as_ints(out@) + cuts(name@, k + 2) =~= as_ints(before) + (seq![k as int]
                    + cuts(name@, k + 2)));
                i = k + 2;
            },
            None => {
                assert(as_ints(out@) + Seq::<int>::empty() =~= as_ints(out@));
                done = true;
            },
        }
    }
    out
}

} // verus!
