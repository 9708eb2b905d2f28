//! Patterns that a database matches texts against.

use crate::text::chars_of;
use vstd::prelude::*;

verus! {

/// Whether a character has a meaning of its own in a pattern.
pub open spec fn is_wild(c: char) -> bool {
    c == '!' || c == '%' || c == '_'
}

/// The pattern of a character that matches nothing else.
pub open spec fn escaped_char(c: char) -> Seq<char> {
    if is_wild(c) {
        seq!['!', c]
    } else {
        seq![c]
    }
}

/// The pattern of a text that matches nothing else.
pub open spec fn escaped(s: Seq<char>) -> Seq<char>
    decreases s.len(),
{
    if s.len() == 0 {
        s
    } else {
        escaped(s.drop_last()) + escaped_char(s.last())
    }
}

/// What a character of a pattern matches: any text, any character, or itself.
pub enum PatternPart {
    AnyText,
    AnyChar,
    Itself,
}

/// What the characters of a pattern from `i` on match, with `!` as the escape.
pub open spec fn pattern_parts(p: Seq<char>, i: int) -> Seq<(PatternPart, char)>
    decreases p.len() - i,
{
    if i < 0 || i >= p.len() {
        Seq::empty()
    } else if p[i] == '!' && i + 1 < p.len() {
        seq![(PatternPart::Itself, p[i + 1])] + pattern_parts(p, i + 2)
    } else if p[i] == '%' {
        seq![(PatternPart::AnyText, '%')] + pattern_parts(p, i + 1)
    } else if p[i] == '_' {
        seq![(PatternPart::AnyChar, '_')] + pattern_parts(p, i + 1)
    } else {
        seq![(PatternPart::Itself, p[i])] + pattern_parts(p, i + 1)
    }
}

/// The characters of a text, each of which matches itself alone.
pub open spec fn literally(s: Seq<char>) -> Seq<(PatternPart, char)>
    decreases s.len(),
{
    if s.len() == 0 {
        Seq::empty()
    } else {
        literally(s.drop_last()).push((PatternPart::Itself, s.last()))
    }
}

proof fn parts_behind(a: Seq<char>, t: Seq<char>, i: int)
    requires
        0 <= i <= t.len(),
    ensures
        pattern_parts(a + t, a.len() + i) == pattern_parts(t, i),
    decreases t.len() - i,
{
    if i < t.len() {
        assert((a + t)[a.len() + i] == t[i]);
        if t[i] == '!' && i + 1 < t.len() {
            assert((a + t)[a.len() + i + 1] == t[i + 1]);
            parts_behind(a, t, i + 2);
        } else {
            parts_behind(a, t, i + 1);
        }
    }
}

proof fn escaped_parts(s: Seq<char>, t: Seq<char>)
    ensures
        pattern_parts(escaped(s) + t, 0) == literally(s) + pattern_parts(t, 0),
    decreases s.len(),
{
    if s.len() == 0 {
        assert(escaped(s) + t =~= t);
        assert(literally(s) + pattern_parts(t, 0) =~= pattern_parts(t, 0));
    } else {
        let c = s.last();
        let e = escaped_char(c);
        escaped_parts(s.drop_last(), e + t);
        assert(escaped(s) + t =~= escaped(s.drop_last()) + (e + t));
        parts_behind(e, t, 0);
        if is_wild(c) {
            assert((e + t)[0] == '!' && (e + t)[1] == c);
        } else {
            assert((e + t)[0] == c);
        }
        assert(pattern_parts(e + t, 0) =~= seq![(PatternPart::Itself, c)] + pattern_parts(t, 0));
        assert(literally(s) =~= literally(s.drop_last()).push((PatternPart::Itself, c)));
        assert(literally(s.drop_last()) + (seq![(PatternPart::Itself, c)] + pattern_parts(t, 0))
            =~= literally(s) + pattern_parts(t, 0));
    }
}

/// In the pattern of a text every character stands for itself.
pub proof fn escaped_is_literal(s: Seq<char>)
    ensures
        pattern_parts(escaped(s), 0) == literally(s),
{
    escaped_parts(s, Seq::empty());
    assert(escaped(s) + Seq::<char>::empty() =~= escaped(s));
    assert(literally(s) + pattern_parts(Seq::empty(), 0) =~= literally(s));
}

/// The second pattern of a name filter matches any text that is followed by
/// `::` and the name, character by character.
pub proof fn suffix_pattern_is_literal(name: Seq<char>)
    ensures
        pattern_parts("%::"@ + escaped(name), 0) == seq![(PatternPart::AnyText, '%')] + literally("::"@)
            + literally(name),
{
    reveal_strlit("%::");
    reveal_strlit("::");
    escaped_is_literal(name);
    let p = "%::"@ + escaped(name);
    parts_behind("%::"@, escaped(name), 0);
    assert(p[0] == '%' && p[1] == ':' && p[2] == ':');
    let rest = pattern_parts(p, 3);
    assert(pattern_parts(p, 2) == seq![(PatternPart::Itself, ':')] + rest);
    assert(pattern_parts(p, 1) == seq![(PatternPart::Itself, ':')] + pattern_parts(p, 2));
    assert(pattern_parts(p, 0) == seq![(PatternPart::AnyText, '%')] + pattern_parts(p, 1));
    reveal_with_fuel(literally, 3);
    assert("::"@.drop_last() =~= seq![':']);
    assert(seq![':'].drop_last() =~= Seq::<char>::empty());
    assert(literally("::"@) =~= seq![(PatternPart::Itself, ':'), (PatternPart::Itself, ':')]);
    assert(pattern_parts(p, 0) =~= seq![(PatternPart::AnyText, '%')] + literally("::"@) + literally(name));
}

/// The pattern of a text that matches nothing else.
pub fn like_escape(s: &str) -> (r: String)
    ensures
        r@ == escaped(s@),
{
    let c = chars_of(s);
    let mut out = String::new();
    let mut i: usize = 0;
    assert(out@ =~= escaped(s@.take(0)));
    while i < c.len()
        invariant
            c@ == s@,
            i <= c@.len(),
            out@ == escaped(s@.take(i as int)),
        decreases c@.len() - i,
    {
        let ghost before = out@;
        if c[i] == '!' || c[i] == '%' || c[i] == '_' {
            out.push('!');
        }
        out.push(c[i]);
        assert(s@.take(i + 1).drop_last() =~= s@.take(i as int));
        assert(out@ =~= before + escaped_char(s@[i as int]));
        i = i + 1;
    }
    assert(s@.take(i as int) =~= s@);
    out
}

} // verus!
