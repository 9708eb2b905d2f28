//! Preprocessing tokens.

use crate::text::{
    add_name, add_names, clone_names, contains_name, names_view, with_name, with_names,
};
use vstd::prelude::*;

verus! {

broadcast use {crate::text::subrange_push, crate::text::take_push};

/// What a token is. Literals are held without their quotes, escapes as
/// written; a number is held without its digit separators.
#[derive(Debug)]
pub enum TokenKind {
    Identifier(String),
    Number(String),
    String(String),
    Char(String),
    Punct(String),
    Hash,
    Newline,
    Eof,
}

/// The mathematical form of a [`TokenKind`].
pub enum KindV {
    Identifier(Seq<char>),
    Number(Seq<char>),
    String(Seq<char>),
    Char(Seq<char>),
    Punct(Seq<char>),
    Hash,
    Newline,
    Eof,
}

impl View for TokenKind {
    type V = KindV;

    open spec fn view(&self) -> KindV {
        match *self {
            TokenKind::Identifier(s) => KindV::Identifier(s@),
            TokenKind::Number(s) => KindV::Number(s@),
            TokenKind::String(s) => KindV::String(s@),
            TokenKind::Char(s) => KindV::Char(s@),
            TokenKind::Punct(s) => KindV::Punct(s@),
            TokenKind::Hash => KindV::Hash,
            TokenKind::Newline => KindV::Newline,
            TokenKind::Eof => KindV::Eof,
        }
    }
}

/// A token with its position and the macro names that must not be expanded
/// at it any more (its hide set).
#[derive(Debug)]
pub struct Token {
    pub kind: TokenKind,
    pub line: u32,
    pub col: u32,
    pub hidden: Vec<String>,
}

/// The mathematical form of a [`Token`].
#[verifier::ext_equal]
pub struct TokenV {
    pub kind: KindV,
    pub line: u32,
    pub col: u32,
    pub hidden: Seq<Seq<char>>,
}

impl View for Token {
    type V = TokenV;

    open spec fn view(&self) -> TokenV {
        TokenV {
            kind: self.kind@,
            line: self.line,
            col: self.col,
            hidden: names_view(self.hidden@),
        }
    }
}

/// The mathematical form of a list of tokens.
pub open spec fn tokens_view(s: Seq<Token>) -> Seq<TokenV> {
    Seq::new(s.len(), |i: int| s[i]@)
}

/// The mathematical form of a list of token lists.
pub open spec fn token_lists_view(s: Seq<Vec<Token>>) -> Seq<Seq<TokenV>> {
    Seq::new(s.len(), |i: int| tokens_view(s[i]@))
}

/// A token with an empty hide set.
pub open spec fn plain(kind: KindV, line: u32, col: u32) -> TokenV {
    TokenV { kind, line, col, hidden: Seq::empty() }
}

impl TokenV {
    /// The token after it has come out of the expansion of `name` at
    /// `origin`: it inherits what is hidden at `origin`, and `name`.
    pub open spec fn painted(self, origin: TokenV, name: Seq<char>) -> TokenV {
        TokenV { hidden: with_name(with_names(self.hidden, origin.hidden), name), ..self }
    }
}

impl Clone for TokenKind {
    fn clone(&self) -> (r: Self)
        ensures
            r@ == self@,
    {
        match self {
            TokenKind::Identifier(s) => TokenKind::Identifier(s.clone()),
            TokenKind::Number(s) => TokenKind::Number(s.clone()),
            TokenKind::String(s) => TokenKind::String(s.clone()),
            TokenKind::Char(s) => TokenKind::Char(s.clone()),
            TokenKind::Punct(s) => TokenKind::Punct(s.clone()),
            TokenKind::Hash => TokenKind::Hash,
            TokenKind::Newline => TokenKind::Newline,
            TokenKind::Eof => TokenKind::Eof,
        }
    }
}

impl Clone for Token {
    fn clone(&self) -> (r: Self)
        ensures
            r@ == self@,
    {
        Token {
            kind: self.kind.clone(),
            line: self.line,
            col: self.col,
            hidden: clone_names(&self.hidden),
        }
    }
}

impl Token {
    pub fn new(kind: TokenKind, line: u32, col: u32) -> (r: Token)
        ensures
            r@ == plain(kind@, line, col),
    {
        let r = Token { kind, line, col, hidden: Vec::new() };
        assert(names_view(r.hidden@) =~= Seq::<Seq<char>>::empty());
        r
    }

    /// Whether `name` must not be expanded at this token.
    pub fn is_hidden(&self, name: &str) -> (r: bool)
        ensures
            r == self@.hidden.contains(name@),
    {
        contains_name(&self.hidden, name)
    }

    /// A copy that inherits the hide set of `origin` and hides `name`.
    pub fn with_macro_hide(&self, origin: &Token, name: &str) -> (r: Token)
        ensures
            r@ == self@.painted(origin@, name@),
    {
        let mut hidden = clone_names(&self.hidden);
        add_names(&mut hidden, &origin.hidden);
        add_name(&mut hidden, name);
        Token { kind: self.kind.clone(), line: self.line, col: self.col, hidden }
    }

    /// What is hidden at either of two tokens.
    pub fn union_hidden(left: &Token, right: &Token) -> (r: Vec<String>)
        ensures
            names_view(r@) == with_names(left@.hidden, right@.hidden),
    {
        let mut hidden = clone_names(&left.hidden);
        add_names(&mut hidden, &right.hidden);
        hidden
    }
}

/// Appends a token.
pub fn push_token(out: &mut Vec<Token>, t: Token)
    ensures
        tokens_view(final(out)@) == tokens_view(old(out)@).push(t@),
{
    let ghost before = out@;
    out.push(t);
    assert(tokens_view(out@) =~= tokens_view(before).push(t@));
}

/// Appends copies of the tokens at `from..to`.
pub fn push_clones(out: &mut Vec<Token>, tokens: &[Token], from: usize, to: usize)
    requires
        from <= to <= tokens@.len(),
    ensures
        tokens_view(final(out)@) == tokens_view(old(out)@) + tokens_view(tokens@).subrange(
            from as int,
            to as int,
        ),
{
    let ghost start = tokens_view(out@);
    let mut i: usize = from;
    while i < to
        invariant
            from <= i <= to <= tokens@.len(),
            tokens_view(out@) == start + tokens_view(tokens@).subrange(from as int, i as int),
        decreases to - i,
    {
        push_token(out, tokens[i].clone());
        i = i + 1;
    }
}

/// Copies of a list of tokens.
pub fn clone_tokens(tokens: &[Token]) -> (r: Vec<Token>)
    ensures
        tokens_view(r@) == tokens_view(tokens@),
{
    let mut out: Vec<Token> = Vec::new();
    push_clones(&mut out, tokens, 0, tokens.len());
    assert(tokens_view(out@) =~= tokens_view(tokens@));
    out
}

} // verus!
