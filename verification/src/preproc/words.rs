//! How text falls into tokens, arguments into lists, and output back into lines.

use crate::preproc::directives::{
    args_from, cond_args_from, header_name, macro_args, skip_newlines, ArgsV,
};
use crate::preproc::lexer::{
    block_comment_end, char_at, ident_end, lexeme, line_comment_end, literal_end, number_end,
    position_after, without_separators,
};
use crate::preproc::line_map::{entry_covering, position_from, LineMapEntry};
use crate::preproc::state::StateV;
use crate::preproc::token::{KindV, TokenV};
use vstd::prelude::*;

verus! {

/// Whether a character can stand in a word: a letter, a digit, `_`, `$`, or one
/// beyond ASCII.
pub open spec fn in_word(c: char) -> bool {
    ('a' <= c <= 'z') || ('A' <= c <= 'Z') || ('0' <= c <= '9') || c == '_' || c == '$' || c
        >= '\u{80}'
}

/// Whether a character is a digit.
pub open spec fn in_number(c: char) -> bool {
    '0' <= c <= '9'
}

proof fn word_reaches(src: Seq<char>, i: int, e: int)
    requires
        0 <= i <= e <= src.len(),
        forall|j: int| i <= j < e ==> in_word(#[trigger] src[j]),
        e < src.len() ==> !in_word(src[e]),
    ensures
        ident_end(src, i) == e,
    decreases e - i,
{
    if i < e {
        assert(in_word(src[i]));
        word_reaches(src, i + 1, e);
    }
}

/// A word is one token, from its first letter up to the first character that can
/// not stand in a word.
pub proof fn words_are_whole(src: Seq<char>, i: int, e: int)
    requires
        0 <= i < e <= src.len(),
        forall|j: int| i <= j < e ==> in_word(#[trigger] src[j]),
        e < src.len() ==> !in_word(src[e]),
        !in_number(src[i]),
    ensures
        lexeme(src, i) == (Some(KindV::Identifier(src.subrange(i, e))), e),
{
    assert(in_word(src[i]));
    word_reaches(src, i + 1, e);
}

proof fn digits_reach(src: Seq<char>, from: int, i: int, e: int)
    requires
        0 <= from < i <= e <= src.len(),
        forall|j: int| from <= j < e ==> in_number(#[trigger] src[j]),
        e < src.len() ==> !in_word(src[e]) && src[e] != '.' && src[e] != '\'',
    ensures
        number_end(src, i) == e,
        without_separators(src, from, i) == src.subrange(from, i),
    decreases e - i,
{
    separators_none(src, from, i);
    if i < e {
        assert(in_number(src[i]));
        digits_reach(src, from, i + 1, e);
    } else {
        assert(in_number(src[i - 1]));
    }
}

proof fn separators_none(src: Seq<char>, from: int, to: int)
    requires
        0 <= from <= to <= src.len(),
        forall|j: int| from <= j < to ==> in_number(#[trigger] src[j]),
    ensures
        without_separators(src, from, to) == src.subrange(from, to),
    decreases to - from,
{
    if from < to {
        assert(in_number(src[to - 1]));
        separators_none(src, from, to - 1);
        assert(src.subrange(from, to - 1).push(src[to - 1]) =~= src.subrange(from, to));
    } else {
        assert(src.subrange(from, to) =~= Seq::<char>::empty());
    }
}

/// Digits in a row are one number.
pub proof fn numbers_are_whole(src: Seq<char>, i: int, e: int)
    requires
        0 <= i < e <= src.len(),
        forall|j: int| i <= j < e ==> in_number(#[trigger] src[j]),
        e < src.len() ==> !in_word(src[e]) && src[e] != '.' && src[e] != '\'',
    ensures
        lexeme(src, i) == (Some(KindV::Number(src.subrange(i, e))), e),
{
    assert(in_number(src[i]));
    digits_reach(src, i, i + 1, e);
    separators_none(src, i, e);
}

proof fn line_reaches(src: Seq<char>, i: int, e: int)
    requires
        0 <= i <= e <= src.len(),
        forall|j: int| i <= j < e ==> #[trigger] src[j] != '\n',
        e < src.len() ==> src[e] == '\n',
    ensures
        line_comment_end(src, i) == e,
    decreases e - i,
{
    if i < e {
        assert(src[i] != '\n');
        line_reaches(src, i + 1, e);
    }
}

/// A comment that two slashes begin is no token, and reaches up to the end of the
/// line.
pub proof fn comments_end_with_their_line(src: Seq<char>, i: int, e: int)
    requires
        0 <= i,
        i + 2 <= e <= src.len(),
        src[i] == '/' && src[i + 1] == '/',
        forall|j: int| i <= j < e ==> #[trigger] src[j] != '\n',
        e < src.len() ==> src[e] == '\n',
    ensures
        lexeme(src, i) == (None::<KindV>, e),
{
    line_reaches(src, i + 2, e);
}

/// Whether a comment is closed at a position.
pub open spec fn closes(src: Seq<char>, j: int) -> bool {
    src[j] == '*' && src[j + 1] == '/'
}

proof fn comment_reaches(src: Seq<char>, i: int, e: int)
    requires
        0 <= i <= e,
        e + 2 <= src.len(),
        closes(src, e),
        forall|j: int| i <= j < e ==> !#[trigger] closes(src, j),
    ensures
        block_comment_end(src, i) == e + 2,
    decreases e - i,
{
    if i < e {
        assert(!closes(src, i));
        comment_reaches(src, i + 1, e);
    }
}

/// A comment that a slash and a star begin is no token, and reaches up to the
/// first star with a slash behind it.
pub proof fn comments_end_where_they_are_closed(src: Seq<char>, i: int, e: int)
    requires
        0 <= i,
        i + 2 <= e,
        e + 2 <= src.len(),
        src[i] == '/' && src[i + 1] == '*',
        closes(src, e),
        forall|j: int| i + 2 <= j < e ==> !#[trigger] closes(src, j),
    ensures
        lexeme(src, i) == (None::<KindV>, e + 2),
{
    comment_reaches(src, i + 2, e);
}

proof fn literal_reaches(src: Seq<char>, i: int, e: int, quote: char)
    requires
        0 <= i <= e < src.len(),
        src[e] == quote,
        forall|j: int|
            i <= j < e ==> #[trigger] src[j] != quote && src[j] != '\n' && src[j] != '\\',
    ensures
        literal_end(src, i, quote) == e,
    decreases e - i,
{
    if i < e {
        assert(src[i] != quote);
        literal_reaches(src, i + 1, e, quote);
    }
}

/// What stands between two quotes is a string, and between two apostrophes a
/// character.
pub proof fn literals_are_whole(src: Seq<char>, i: int, e: int)
    requires
        0 <= i < e < src.len(),
        src[i] == '"' || src[i] == '\'',
        src[e] == src[i],
        forall|j: int|
            i < j < e ==> #[trigger] src[j] != src[i] && src[j] != '\n' && src[j] != '\\',
    ensures
        src[i] == '"' ==> lexeme(src, i) == (Some(KindV::String(src.subrange(i + 1, e))), e + 1),
        src[i] == '\'' ==> lexeme(src, i) == (Some(KindV::Char(src.subrange(i + 1, e))), e + 1),
{
    literal_reaches(src, i + 1, e, src[i]);
}

/// Whether two characters are one operator of C.
pub open spec fn is_operator(a: char, b: char) -> bool {
    ||| b == '=' && (a == '=' || a == '!' || a == '<' || a == '>' || a == '+' || a == '-' || a
        == '*' || a == '/' || a == '%' || a == '&' || a == '|' || a == '^')
    ||| a == b && (a == '+' || a == '-' || a == '<' || a == '>' || a == '&' || a == '|' || a
        == ':')
    ||| a == '-' && b == '>'
}

/// Whether a character begins an operator and nothing else.
pub open spec fn is_mark(c: char) -> bool {
    c == '+' || c == '-' || c == '*' || c == '%' || c == '&' || c == '|' || c == '^' || c == '<'
        || c == '>' || c == '=' || c == '!' || c == ':' || c == ';' || c == ',' || c == '('
        || c == ')' || c == '[' || c == ']' || c == '{' || c == '}' || c == '?' || c == '~' || c
        == '\\'
}

/// Two characters that are an operator together are one token, three where they
/// shift and assign, and one alone is a token where it makes no operator with the
/// next.
pub proof fn longest_operators_are_taken(src: Seq<char>, i: int)
    requires
        0 <= i,
        i + 2 < src.len(),
        is_mark(src[i]),
    ensures
        ({
            let (a, b, c) = (src[i], src[i + 1], src[i + 2]);
            let w: int = if (a == '<' || a == '>') && b == a && c == '=' {
                3
            } else if is_operator(a, b) {
                2
            } else {
                1
            };
            lexeme(src, i) == (Some(KindV::Punct(src.subrange(i, i + w))), i + w)
        }),
{
    assert(char_at(src, i + 1) == Some(src[i + 1]));
    assert(char_at(src, i + 2) == Some(src[i + 2]));
}

/// Blanks are no tokens, and the end of a line is one.
pub proof fn blanks_are_skipped(src: Seq<char>, i: int)
    requires
        0 <= i < src.len(),
    ensures
        src[i] == ' ' || src[i] == '\t' || src[i] == '\r' ==> lexeme(src, i) == (
            None::<KindV>,
            i + 1,
        ),
        src[i] == '\n' ==> lexeme(src, i) == (Some(KindV::Newline), i + 1),
{
}

/// How many lines end in a text.
pub open spec fn line_ends(src: Seq<char>, from: int, to: int) -> nat
    decreases to - from,
{
    if from >= to {
        0
    } else if src[from] == '\n' {
        1 + line_ends(src, from + 1, to)
    } else {
        line_ends(src, from + 1, to)
    }
}

/// The line grows by one with every end of a line, and the column counts the
/// characters since the last.
pub proof fn lines_are_counted(src: Seq<char>, from: int, to: int, line: u32, col: u32)
    requires
        0 <= from <= to <= src.len(),
        line + (to - from) <= u32::MAX,
        col + (to - from) <= u32::MAX,
        1 <= col,
    ensures
        position_after(src, from, to, line, col).0 == line + line_ends(src, from, to),
        (forall|j: int| from <= j < to ==> #[trigger] src[j] != '\n') ==> position_after(
            src,
            from,
            to,
            line,
            col,
        ).1 == col + (to - from),
        from < to && src[to - 1] == '\n' ==> position_after(src, from, to, line, col).1 == 1,
    decreases to - from,
{
    if from < to {
        if src[from] == '\n' {
            lines_are_counted(src, from + 1, to, (line + 1) as u32, 1);
        } else {
            lines_are_counted(src, from + 1, to, line, (col + 1) as u32);
        }
        if forall|j: int| from <= j < to ==> #[trigger] src[j] != '\n' {
            assert(src[from] != '\n');
        }
    }
}

/// How many parentheses are open at a position.
pub open spec fn level(ts: Seq<TokenV>, from: int, i: int) -> int
    decreases i - from,
{
    if i <= from {
        0
    } else if ts[i - 1].kind == KindV::Punct("("@) {
        level(ts, from, i - 1) + 1
    } else if ts[i - 1].kind == KindV::Punct(")"@) {
        level(ts, from, i - 1) - 1
    } else {
        level(ts, from, i - 1)
    }
}

/// Whether positions cut a list of arguments: the first is that of the opening
/// parenthesis, the last that of the one that closes it, and those between are
/// those of all commas that stand in no other parentheses.
pub open spec fn are_cuts(ts: Seq<TokenV>, cuts: Seq<int>) -> bool {
    let from = cuts[0] + 1;
    let end = cuts.last();
    &&& cuts.len() >= 2
    &&& 0 <= cuts[0]
    &&& end < ts.len()
    &&& forall|m: int, k: int| 0 <= m < k < cuts.len() ==> cuts[m] < cuts[k]
    &&& level(ts, from, end) == 0
    &&& ts[end].kind == KindV::Punct(")"@)
    &&& forall|i: int|
        from <= i < end ==> {
            let kind = (#[trigger] ts[i]).kind;
            &&& level(ts, from, i) >= 0
            &&& kind == KindV::Punct(")"@) ==> level(ts, from, i) > 0
            &&& kind == KindV::Punct(","@) && level(ts, from, i) == 0 <==> is_cut(cuts, i)
            &&& kind != KindV::Eof && kind != KindV::Punct("\\"@)
        }
}

/// Whether a position is one of those that cut a list of arguments.
pub open spec fn is_cut(cuts: Seq<int>, i: int) -> bool {
    exists|m: int| 0 < m < cuts.len() - 1 && #[trigger] cuts[m] == i
}

/// What lies between the cuts.
pub open spec fn pieces(ts: Seq<TokenV>, cuts: Seq<int>, n: int) -> Seq<Seq<TokenV>> {
    Seq::new(n as nat, |m: int| ts.subrange(cuts[m] + 1, cuts[m + 1]))
}

proof fn marks_differ()
    ensures
        "("@ != ")"@,
        "("@ != ","@,
        ")"@ != ","@,
        "\\"@ != ")"@,
        "\\"@ != ","@,
        "\\"@ != "("@,
{
    reveal_strlit("(");
    reveal_strlit(")");
    reveal_strlit(",");
    reveal_strlit("\\");
    assert("("@[0] == '(' && ")"@[0] == ')' && ","@[0] == ',' && "\\"@[0] == '\\');
}

proof fn arguments_from(ts: Seq<TokenV>, cuts: Seq<int>, m: int, i: int)
    requires
        are_cuts(ts, cuts),
        0 <= m < cuts.len() - 1,
        cuts[m] < i <= cuts[m + 1],
    ensures
        ({
            let args = pieces(ts, cuts, cuts.len() - 1);
            let end = cuts.last() + 1;
            let depth = level(ts, cuts[0] + 1, i);
            let done = pieces(ts, cuts, m);
            let current = ts.subrange(cuts[m] + 1, i);
            &&& args_from(ts, i, depth, done, current) == (ArgsV::Good { args, end })
            &&& cond_args_from(ts, i, depth, done, current) == Some((args, end))
        }),
    decreases cuts.last() - i,
{
    marks_differ();
    let from = cuts[0] + 1;
    let end = cuts.last();
    let last = cuts.len() - 1;
    let current = ts.subrange(cuts[m] + 1, i);
    if m + 1 < last {
        assert(cuts[m + 1] < cuts[last]);
    }
    if i == end {
        assert(m + 1 == last) by {
            if m + 1 < last {
                assert(cuts[m + 1] < cuts[last]);
            }
        }
        assert(pieces(ts, cuts, m).push(current) =~= pieces(ts, cuts, last));
    } else {
        assert(from <= i < end) by {
            if m > 0 {
                assert(cuts[0] < cuts[m]);
            }
        }
        let kind = ts[i].kind;
        assert(level(ts, from, i) >= 0);
        if i == cuts[m + 1] {
            assert(m + 1 < last);
            assert(is_cut(cuts, i));
            assert(pieces(ts, cuts, m).push(current) =~= pieces(ts, cuts, m + 1));
            assert(cuts[m + 1] < cuts[m + 2]);
            assert(ts.subrange(cuts[m + 1] + 1, i + 1) =~= Seq::<TokenV>::empty());
            arguments_from(ts, cuts, m + 1, i + 1);
        } else {
            assert(!is_cut(cuts, i)) by {
                if is_cut(cuts, i) {
                    let k = choose|k: int| 0 < k < cuts.len() - 1 && #[trigger] cuts[k] == i;
                    if k <= m {
                        if k < m {
                            assert(cuts[k] < cuts[m]);
                        }
                    } else if k > m + 1 {
                        assert(cuts[m + 1] < cuts[k]);
                    }
                }
            }
            assert(current.push(ts[i]) =~= ts.subrange(cuts[m] + 1, i + 1));
            arguments_from(ts, cuts, m, i + 1);
        }
    }
}

/// The arguments of a call of a macro are what lies between the commas of its
/// list; commas in inner parentheses do not part arguments.
pub proof fn commas_part_arguments(ts: Seq<TokenV>, cuts: Seq<int>)
    requires
        are_cuts(ts, cuts),
        ts[cuts[0]].kind == KindV::Punct("("@),
    ensures
        macro_args(ts, cuts[0]) == (ArgsV::Good {
            args: pieces(ts, cuts, cuts.len() - 1),
            end: cuts.last() + 1,
        }),
{
    assert(cuts[0] < cuts[1]);
    assert(cuts[0] < cuts[cuts.len() - 1]);
    arguments_from(ts, cuts, 0, cuts[0] + 1);
    assert(pieces(ts, cuts, 0) =~= Seq::<Seq<TokenV>>::empty());
    assert(ts.subrange(cuts[0] + 1, cuts[0] + 1) =~= Seq::<TokenV>::empty());
    assert(skip_newlines(ts, cuts[0]) == cuts[0]);
}

/// A header in quotes goes by what stands between them.
pub proof fn quoted_headers_are_named(ts: Seq<TokenV>, i: int, name: Seq<char>)
    requires
        0 <= i < ts.len(),
        ts[i].kind == KindV::String(name),
    ensures
        header_name(ts, i) == Some(name),
{
}

/// The place of a piece of output is that of the last piece that begins there or
/// before.
pub proof fn places_are_those_of_the_last_piece(entries: Seq<LineMapEntry>, offset: u32, n: int)
    requires
        0 <= n <= entries.len(),
    ensures
        match entry_covering(entries, offset, n) {
            Some(e) => exists|k: int|
                0 <= k < n && #[trigger] entries[k] == e && e.output_offset <= offset && forall|
                    j: int,
                |
                    k < j < n ==> (#[trigger] entries[j]).output_offset > offset,
            None => forall|j: int| 0 <= j < n ==> (#[trigger] entries[j]).output_offset > offset,
        },
    decreases n,
{
    if n > 0 && entries[n - 1].output_offset > offset {
        places_are_those_of_the_last_piece(entries, offset, n - 1);
        if let Some(e) = entry_covering(entries, offset, n - 1) {
            let k = choose|k: int|
                0 <= k < n - 1 && #[trigger] entries[k] == e && e.output_offset <= offset
                    && forall|j: int|
                    k < j < n - 1 ==> (#[trigger] entries[j]).output_offset > offset;
            assert(entries[k] == e);
        }
    } else if n > 0 {
        assert(entries[n - 1] == entries[n - 1]);
    }
}

proof fn name_has_a_place(names: Seq<Seq<char>>, name: Seq<char>, i: int)
    requires
        0 <= i <= names.len(),
        exists|j: int| i <= j < names.len() && names[j] == name,
    ensures
        i <= position_from(names, name, i) < names.len(),
        names[position_from(names, name, i)] == name,
    decreases names.len() - i,
{
    if names[i] != name {
        let j = choose|j: int| i <= j < names.len() && names[j] == name;
        name_has_a_place(names, name, i + 1);
    }
}

/// What is written leads back to where it comes from: the offset at which a token
/// begins has the file that is read and the line and column of the token.
pub proof fn output_leads_back(st: StateV, tok: TokenV)
    requires
        st.cfg.track,
        tok.kind != KindV::Eof,
        st.line_map.files.len() < u32::MAX,
    ensures
        ({
            let t = st.emit_token(tok);
            let e = t.line_map.entries.last();
            &&& t.line_map.entries.len() == st.line_map.entries.len() + 1
            &&& t.line_map.entries.drop_last() == st.line_map.entries
            &&& e.line == tok.line
            &&& e.col == tok.col
            &&& e.file < t.line_map.files.len()
            &&& t.line_map.files[e.file as int] == st.file
            &&& st.out_len <= e.output_offset || e.output_offset == u32::MAX || st.out_len
                == usize::MAX
        }),
{
    let t = st.emit_token(tok);
    let m = st.line_map.interned(st.file);
    assert(m.files.contains(st.file)) by {
        if !st.line_map.files.contains(st.file) {
            assert(m.files[m.files.len() - 1] == st.file);
        }
    }
    let j = choose|j: int| 0 <= j < m.files.len() && m.files[j] == st.file;
    assert(m.files[j] == st.file);
    name_has_a_place(m.files, st.file, 0);
    assert(t.line_map.entries.drop_last() =~= st.line_map.entries);
}

} // verus!
