//! From characters to preprocessing tokens.

use crate::preproc::token::{plain, push_token, tokens_view, KindV, Token, TokenKind, TokenV};
use crate::text::{chars_of, string_of};
use vstd::prelude::*;

verus! {

broadcast use crate::text::subrange_push;

/// Blanks other than the end of a line.
pub open spec fn is_blank(c: char) -> bool {
    c == ' ' || c == '\t' || c == '\r' || c == '\x0b' || c == '\x0c'
}

pub open spec fn is_digit(c: char) -> bool {
    '0' <= c <= '9'
}

/// Letters, `_`, `$` and everything beyond ASCII begin an identifier.
pub open spec fn is_ident_start(c: char) -> bool {
    ('a' <= c <= 'z') || ('A' <= c <= 'Z') || c == '_' || c == '$' || c >= '\u{80}'
}

pub open spec fn is_ident_char(c: char) -> bool {
    is_ident_start(c) || is_digit(c)
}

/// The character at `i`, if there is one.
pub open spec fn char_at(src: Seq<char>, i: int) -> Option<char> {
    if 0 <= i < src.len() {
        Some(src[i])
    } else {
        None
    }
}

/// Where the identifier that reaches up to `i` ends.
pub open spec fn ident_end(src: Seq<char>, i: int) -> int
    decreases src.len() - i,
{
    if 0 <= i < src.len() && is_ident_char(src[i]) {
        ident_end(src, i + 1)
    } else {
        i
    }
}

/// Whether a number that reaches up to `i` goes on with the character there:
/// letters, digits and dots, a sign behind an exponent letter, and a `'`
/// between two of them.
pub open spec fn number_goes_on(src: Seq<char>, i: int) -> bool {
    &&& 0 < i < src.len()
    &&& {
        ||| is_ident_char(src[i]) || src[i] == '.'
        ||| (src[i] == '+' || src[i] == '-') && (src[i - 1] == 'e' || src[i - 1] == 'E' || src[i
            - 1] == 'p' || src[i - 1] == 'P')
        ||| src[i] == '\'' && i + 1 < src.len() && is_ident_char(src[i + 1])
    }
}

/// Where the number that reaches up to `i` ends.
pub open spec fn number_end(src: Seq<char>, i: int) -> int
    decreases src.len() - i,
{
    if number_goes_on(src, i) {
        number_end(src, i + 1)
    } else {
        i
    }
}

/// The characters at `from..to` but for the digit separators.
pub open spec fn without_separators(src: Seq<char>, from: int, to: int) -> Seq<char>
    decreases to - from,
{
    if from >= to {
        Seq::empty()
    } else if src[to - 1] == '\'' {
        without_separators(src, from, to - 1)
    } else {
        without_separators(src, from, to - 1).push(src[to - 1])
    }
}

/// Where the contents of a literal that reach up to `i` end: at the closing
/// quote, at the end of the line, or at the end of the text. A backslash
/// takes the character behind it along.
pub open spec fn literal_end(src: Seq<char>, i: int, quote: char) -> int
    decreases src.len() - i,
{
    if i < 0 || i >= src.len() || src[i] == quote || src[i] == '\n' {
        i
    } else if src[i] == '\\' && i + 1 < src.len() && src[i + 1] != '\n' {
        literal_end(src, i + 2, quote)
    } else {
        literal_end(src, i + 1, quote)
    }
}

/// Where the line that reaches up to `i` ends.
pub open spec fn line_comment_end(src: Seq<char>, i: int) -> int
    decreases src.len() - i,
{
    if 0 <= i < src.len() && src[i] != '\n' {
        line_comment_end(src, i + 1)
    } else {
        i
    }
}

/// Behind the `*/` that closes the comment that reaches up to `i`.
pub open spec fn block_comment_end(src: Seq<char>, i: int) -> int
    decreases src.len() - i,
{
    if i < 0 || i >= src.len() {
        i
    } else if src[i] == '*' && char_at(src, i + 1) == Some('/') {
        i + 2
    } else {
        block_comment_end(src, i + 1)
    }
}

/// Whether the two characters make up one operator.
pub open spec fn is_pair(a: char, b: char) -> bool {
    ||| a == ':' && b == ':'
    ||| a == '-' && (b == '>' || b == '-' || b == '=')
    ||| a == '+' && (b == '+' || b == '=')
    ||| a == '<' && (b == '<' || b == '=')
    ||| a == '>' && (b == '>' || b == '=')
    ||| a == '&' && (b == '&' || b == '=')
    ||| a == '|' && (b == '|' || b == '=')
    ||| (a == '=' || a == '!' || a == '*' || a == '/' || a == '%' || a == '^') && b == '='
}

/// How many characters the operator at `i` takes: the longest that fits.
pub open spec fn punct_width(src: Seq<char>, i: int) -> int {
    let a = src[i];
    let b = char_at(src, i + 1);
    let c = char_at(src, i + 2);
    if a == '.' && b == Some('.') && c == Some('.') {
        3
    } else if (a == '<' || a == '>') && b == Some(a) && c == Some('=') {
        3
    } else if b is Some && is_pair(a, b->0) {
        2
    } else {
        1
    }
}

/// What begins at `i`, if it is a token at all, and where it ends.
pub open spec fn lexeme(src: Seq<char>, i: int) -> (Option<KindV>, int) {
    let c = src[i];
    let next = char_at(src, i + 1);
    if c == '\n' {
        (Some(KindV::Newline), i + 1)
    } else if is_blank(c) {
        (None, i + 1)
    } else if c == '/' && next == Some('/') {
        (None, line_comment_end(src, i + 2))
    } else if c == '/' && next == Some('*') {
        (None, block_comment_end(src, i + 2))
    } else if is_ident_start(c) {
        let e = ident_end(src, i + 1);
        (Some(KindV::Identifier(src.subrange(i, e))), e)
    } else if is_digit(c) || (c == '.' && next is Some && is_digit(next->0)) {
        let e = number_end(src, i + 1);
        (Some(KindV::Number(without_separators(src, i, e))), e)
    } else if c == '"' || c == '\'' {
        let e = literal_end(src, i + 1, c);
        let text = src.subrange(i + 1, e);
        let kind = if c == '"' {
            KindV::String(text)
        } else {
            KindV::Char(text)
        };
        (
            Some(kind),
            if char_at(src, e) == Some(c) {
                e + 1
            } else {
                e
            },
        )
    } else if c == '#' && next == Some('#') {
        (Some(KindV::Punct(src.subrange(i, i + 2))), i + 2)
    } else if c == '#' {
        (Some(KindV::Hash), i + 1)
    } else {
        let w = punct_width(src, i);
        (Some(KindV::Punct(src.subrange(i, i + w))), i + w)
    }
}

/// One more, within the type.
pub open spec fn next_u32(n: u32) -> u32 {
    if n == u32::MAX {
        n
    } else {
        (n + 1) as u32
    }
}

/// The line and column behind the characters at `from..to`, which begin at
/// the line and column given. Columns count characters.
pub open spec fn position_after(
    src: Seq<char>,
    from: int,
    to: int,
    line: u32,
    col: u32,
) -> (u32, u32)
    decreases to - from,
{
    if from >= to {
        (line, col)
    } else if src[from] == '\n' {
        position_after(src, from + 1, to, next_u32(line), 1)
    } else {
        position_after(src, from + 1, to, line, next_u32(col))
    }
}

/// The tokens of the text from `i` on. The last one is the end of the text.
pub open spec fn lex_from(src: Seq<char>, i: int, line: u32, col: u32) -> Seq<TokenV>
    decreases src.len() - i,
{
    if i < 0 || i >= src.len() {
        seq![plain(KindV::Eof, line, col)]
    } else {
        let (kind, end) = lexeme(src, i);
        let (l, c) = position_after(src, i, end, line, col);
        proof {
            lexeme_bounds(src, i);
        }
        match kind {
            Some(k) => seq![plain(k, line, col)] + lex_from(src, end, l, c),
            None => lex_from(src, end, l, c),
        }
    }
}

/// The tokens of a text.
pub open spec fn lex(src: Seq<char>) -> Seq<TokenV> {
    lex_from(src, 0, 1, 1)
}

proof fn ident_end_bounds(src: Seq<char>, i: int)
    requires
        0 <= i <= src.len(),
    ensures
        i <= ident_end(src, i) <= src.len(),
    decreases src.len() - i,
{
    if i < src.len() && is_ident_char(src[i]) {
        ident_end_bounds(src, i + 1);
    }
}

proof fn number_end_bounds(src: Seq<char>, i: int)
    requires
        0 <= i <= src.len(),
    ensures
        i <= number_end(src, i) <= src.len(),
    decreases src.len() - i,
{
    if number_goes_on(src, i) {
        number_end_bounds(src, i + 1);
    }
}

proof fn literal_end_bounds(src: Seq<char>, i: int, quote: char)
    requires
        0 <= i <= src.len(),
    ensures
        i <= literal_end(src, i, quote) <= src.len(),
    decreases src.len() - i,
{
    if i >= src.len() || src[i] == quote || src[i] == '\n' {
    } else if src[i] == '\\' && i + 1 < src.len() && src[i + 1] != '\n' {
        literal_end_bounds(src, i + 2, quote);
    } else {
        literal_end_bounds(src, i + 1, quote);
    }
}

proof fn line_comment_end_bounds(src: Seq<char>, i: int)
    requires
        0 <= i <= src.len(),
    ensures
        i <= line_comment_end(src, i) <= src.len(),
    decreases src.len() - i,
{
    if i < src.len() && src[i] != '\n' {
        line_comment_end_bounds(src, i + 1);
    }
}

proof fn block_comment_end_bounds(src: Seq<char>, i: int)
    requires
        0 <= i <= src.len(),
    ensures
        i <= block_comment_end(src, i) <= src.len(),
    decreases src.len() - i,
{
    if i < src.len() && !(src[i] == '*' && char_at(src, i + 1) == Some('/')) {
        block_comment_end_bounds(src, i + 1);
    }
}

/// Every lexeme takes at least one character and stays within the text.
pub proof fn lexeme_bounds(src: Seq<char>, i: int)
    requires
        0 <= i < src.len(),
    ensures
        i < lexeme(src, i).1 <= src.len(),
{
    ident_end_bounds(src, i + 1);
    number_end_bounds(src, i + 1);
    literal_end_bounds(src, i + 1, src[i]);
    if i + 2 <= src.len() {
        line_comment_end_bounds(src, i + 2);
        block_comment_end_bounds(src, i + 2);
    }
}

fn ident_start(c: char) -> (r: bool)
    ensures
        r == is_ident_start(c),
{
    ('a' <= c && c <= 'z') || ('A' <= c && c <= 'Z') || c == '_' || c == '$' || c >= '\u{80}'
}

fn ident_char(c: char) -> (r: bool)
    ensures
        r == is_ident_char(c),
{
    ident_start(c) || ('0' <= c && c <= '9')
}

fn pair(a: char, b: char) -> (r: bool)
    ensures
        r == is_pair(a, b),
{
    (a == ':' && b == ':') || (a == '-' && (b == '>' || b == '-' || b == '=')) || (a == '+' && (b
        == '+' || b == '=')) || (a == '<' && (b == '<' || b == '=')) || (a == '>' && (b == '>' || b
        == '=')) || (a == '&' && (b == '&' || b == '=')) || (a == '|' && (b == '|' || b == '='))
        || ((a == '=' || a == '!' || a == '*' || a == '/' || a == '%' || a == '^') && b == '=')
}

/// Cuts a text into tokens.
pub struct Lexer {
    src: Vec<char>,
    pos: usize,
    line: u32,
    col: u32,
}

impl Lexer {
    /// What is still to be cut.
    pub closed spec fn rest(&self) -> Seq<TokenV> {
        lex_from(self.src@, self.pos as int, self.line, self.col)
    }

    closed spec fn wf(&self) -> bool {
        self.pos <= self.src@.len()
    }

    pub fn new(source: &str) -> (r: Lexer)
        ensures
            r.rest() == lex(source@),
    {
        Lexer { src: chars_of(source), pos: 0, line: 1, col: 1 }
    }

    fn peek(&self, i: usize) -> (r: Option<char>)
        ensures
            r == char_at(self.src@, i as int),
    {
        if i < self.src.len() {
            Some(self.src[i])
        } else {
            None
        }
    }

    /// Moves on to `end`.
    fn advance(&mut self, end: usize)
        requires
            old(self).pos <= end <= old(self).src@.len(),
        ensures
            final(self).src@ == old(self).src@,
            final(self).pos == end,
            (final(self).line, final(self).col) == position_after(
                old(self).src@,
                old(self).pos as int,
                end as int,
                old(self).line,
                old(self).col,
            ),
    {
        let ghost goal = position_after(self.src@, self.pos as int, end as int, self.line, self.col);
        while self.pos < end
            invariant
                self.src@ == old(self).src@,
                self.pos <= end <= self.src@.len(),
                position_after(self.src@, self.pos as int, end as int, self.line, self.col) == goal,
            decreases end - self.pos,
        {
            if self.src[self.pos] == '\n' {
                if self.line < u32::MAX {
                    self.line = self.line + 1;
                }
                self.col = 1;
            } else if self.col < u32::MAX {
                self.col = self.col + 1;
            }
            self.pos = self.pos + 1;
        }
    }

    fn find_ident_end(&self, start: usize) -> (r: usize)
        requires
            start <= self.src@.len(),
        ensures
            r == ident_end(self.src@, start as int),
            start <= r <= self.src@.len(),
    {
        let mut i: usize = start;
        while i < self.src.len() && ident_char(self.src[i])
            invariant
                start <= i <= self.src@.len(),
                ident_end(self.src@, i as int) == ident_end(self.src@, start as int),
            decreases self.src@.len() - i,
        {
            i = i + 1;
        }
        i
    }

    fn find_number_end(&self, start: usize) -> (r: usize)
        requires
            0 < start <= self.src@.len(),
        ensures
            r == number_end(self.src@, start as int),
            start <= r <= self.src@.len(),
    {
        let mut i: usize = start;
        while i < self.src.len()
            invariant
                0 < start <= i <= self.src@.len(),
                number_end(self.src@, i as int) == number_end(self.src@, start as int),
            decreases self.src@.len() - i,
        {
            let c = self.src[i];
            let p = self.src[i - 1];
            let goes_on = ident_char(c) || c == '.' || ((c == '+' || c == '-') && (p == 'e' || p
                == 'E' || p == 'p' || p == 'P')) || (c == '\'' && i + 1 < self.src.len()
                && ident_char(self.src[i + 1]));
            if !goes_on {
                return i;
            }
            i = i + 1;
        }
        i
    }

    fn find_literal_end(&self, start: usize, quote: char) -> (r: usize)
        requires
            start <= self.src@.len(),
        ensures
            r == literal_end(self.src@, start as int, quote),
            start <= r <= self.src@.len(),
    {
        let mut i: usize = start;
        while i < self.src.len() && self.src[i] != quote && self.src[i] != '\n'
            invariant
                start <= i <= self.src@.len(),
                literal_end(self.src@, i as int, quote) == literal_end(
                    self.src@,
                    start as int,
                    quote,
                ),
            decreases self.src@.len() - i,
        {
            if self.src[i] == '\\' && i + 1 < self.src.len() && self.src[i + 1] != '\n' {
                i = i + 2;
            } else {
                i = i + 1;
            }
        }
        i
    }

    fn find_line_comment_end(&self, start: usize) -> (r: usize)
        requires
            start <= self.src@.len(),
        ensures
            r == line_comment_end(self.src@, start as int),
            start <= r <= self.src@.len(),
    {
        let mut i: usize = start;
        while i < self.src.len() && self.src[i] != '\n'
            invariant
                start <= i <= self.src@.len(),
                line_comment_end(self.src@, i as int) == line_comment_end(self.src@, start as int),
            decreases self.src@.len() - i,
        {
            i = i + 1;
        }
        i
    }

    fn find_block_comment_end(&self, start: usize) -> (r: usize)
        requires
            start <= self.src@.len(),
        ensures
            r == block_comment_end(self.src@, start as int),
            start <= r <= self.src@.len(),
    {
        let mut i: usize = start;
        while i < self.src.len()
            invariant
                start <= i <= self.src@.len(),
                block_comment_end(self.src@, i as int) == block_comment_end(
                    self.src@,
                    start as int,
                ),
            decreases self.src@.len() - i,
        {
            if self.src[i] == '*' && i + 1 < self.src.len() && self.src[i + 1] == '/' {
                return i + 2;
            }
            i = i + 1;
        }
        i
    }

    fn number_text(&self, from: usize, to: usize) -> (r: String)
        requires
            from <= to <= self.src@.len(),
        ensures
            r@ == without_separators(self.src@, from as int, to as int),
    {
        let mut s = String::new();
        let mut i: usize = from;
        while i < to
            invariant
                from <= i <= to <= self.src@.len(),
                s@ == without_separators(self.src@, from as int, i as int),
            decreases to - i,
        {
            if self.src[i] != '\'' {
                s.push(self.src[i]);
            }
            i = i + 1;
        }
        s
    }

    fn width(&self, i: usize) -> (r: usize)
        requires
            i < self.src@.len(),
        ensures
            r == punct_width(self.src@, i as int),
            i + r <= self.src@.len(),
    {
        let n = self.src.len();
        let a = self.src[i];
        let b = if i + 1 < n {
            Some(self.src[i + 1])
        } else {
            None
        };
        let c = if n - i > 2 {
            Some(self.src[i + 2])
        } else {
            None
        };
        match (b, c) {
            (Some(b), Some(c)) => {
                if (a == '.' && b == '.' && c == '.') || ((a == '<' || a == '>') && b == a && c
                    == '=') {
                    3
                } else if pair(a, b) {
                    2
                } else {
                    1
                }
            },
            (Some(b), None) => if pair(a, b) {
                2
            } else {
                1
            },
            (None, _) => 1,
        }
    }

    /// What begins at the current position, and where it ends.
    fn scan(&self) -> (r: (Option<TokenKind>, usize))
        requires
            self.pos < self.src@.len(),
        ensures
            r.1 == lexeme(self.src@, self.pos as int).1,
            self.pos < r.1 <= self.src@.len(),
            match r.0 {
                Some(k) => lexeme(self.src@, self.pos as int).0 == Some(k@),
                None => lexeme(self.src@, self.pos as int).0 is None,
            },
    {
        let i = self.pos;
        let n = self.src.len();
        let c = self.src[i];
        let next = self.peek(i + 1);
        proof {
            lexeme_bounds(self.src@, i as int);
        }
        if c == '\n' {
            return (Some(TokenKind::Newline), i + 1);
        }
        if c == ' ' || c == '\t' || c == '\r' || c == '\x0b' || c == '\x0c' {
            return (None, i + 1);
        }
        if c == '/' && next == Some('/') {
            return (None, self.find_line_comment_end(i + 2));
        }
        if c == '/' && next == Some('*') {
            return (None, self.find_block_comment_end(i + 2));
        }
        if ident_start(c) {
            let e = self.find_ident_end(i + 1);
            return (Some(TokenKind::Identifier(string_of(&self.src, i, e))), e);
        }
        let starts_number = ('0' <= c && c <= '9') || (c == '.' && (match next {
            Some(d) => '0' <= d && d <= '9',
            None => false,
        }));
        if starts_number {
            let e = self.find_number_end(i + 1);
            return (Some(TokenKind::Number(self.number_text(i, e))), e);
        }
        if c == '"' || c == '\'' {
            let e = self.find_literal_end(i + 1, c);
            let text = string_of(&self.src, i + 1, e);
            let end = if e < n && self.src[e] == c {
                e + 1
            } else {
                e
            };
            let kind = if c == '"' {
                TokenKind::String(text)
            } else {
                TokenKind::Char(text)
            };
            return (Some(kind), end);
        }
        if c == '#' && next == Some('#') {
            return (Some(TokenKind::Punct(string_of(&self.src, i, i + 2))), i + 2);
        }
        if c == '#' {
            return (Some(TokenKind::Hash), i + 1);
        }
        let w = self.width(i);
        (Some(TokenKind::Punct(string_of(&self.src, i, i + w))), i + w)
    }

    /// The tokens of the text, the end of the text last.
    pub fn tokenize(self) -> (r: Vec<Token>)
        ensures
            tokens_view(r@) == self.rest(),
    {
        let mut lexer = self;
        let mut out: Vec<Token> = Vec::new();
        if lexer.pos > lexer.src.len() {
            lexer.pos = lexer.src.len();
        }
        assert(tokens_view(out@) + lexer.rest() =~= self.rest());
        while lexer.pos < lexer.src.len()
            invariant
                lexer.wf(),
                tokens_view(out@) + lexer.rest() == self.rest(),
            decreases lexer.src@.len() - lexer.pos,
        {
            let (kind, end) = lexer.scan();
            let line = lexer.line;
            let col = lexer.col;
            let ghost before = tokens_view(out@);
            let ghost rest = lexer.rest();
            proof {
                lexeme_bounds(lexer.src@, lexer.pos as int);
            }
            lexer.advance(end);
            match kind {
                Some(k) => {
                    let tok = Token::new(k, line, col);
                    let ghost t = tok@;
                    push_token(&mut out, tok);
                    assert(rest == seq![t] + lexer.rest());
                    assert(before.push(t) + lexer.rest() =~= before + (seq![t] + lexer.rest()));
                },
                None => {},
            }
        }
        let ghost before = tokens_view(out@);
        let eof = Token::new(TokenKind::Eof, lexer.line, lexer.col);
        let ghost t = eof@;
        push_token(&mut out, eof);
        assert(before.push(t) =~= before + seq![t]);
        out
    }
}

} // verus!
