//! Parsing preprocessed sources.

use crate::index::discover::SourceLang;
use crate::index::syntax::{
    char_at, chars_before, children_viewed, find_field, find_kind, raws_view, shaped, FieldName,
    NodeV, RawNode, RawV, SyntaxNode,
};
use crate::text::{byte_len, byte_len_concat, char_width, chars_of, owned, utf8_width};
use vstd::prelude::*;

verus! {

/// A node of a tree of the parser.
#[verifier::external_type_specification]
#[verifier::external_body]
pub struct ExNode<'tree>(tree_sitter::Node<'tree>);

/// What the C grammar makes of a text: the tree that `Parser::parse` of the
/// crate `tree-sitter` returns once it has been given the language of the
/// crate `tree-sitter-c`, or nothing where it returns none.
pub uninterp spec fn c_tree(text: Seq<char>) -> Option<RawV>;

/// What the C++ grammar makes of a text: the tree that `Parser::parse` of the
/// crate `tree-sitter` returns once it has been given the language of the
/// crate `tree-sitter-cpp`, or nothing where it returns none.
pub uninterp spec fn cpp_tree(text: Seq<char>) -> Option<RawV>;

/// A tree that may be missing.
pub open spec fn opt_tree(t: Option<RawNode>) -> Option<RawV> {
    match t {
        Some(n) => Some(n@),
        None => None,
    }
}

/// The node of a tree, with all below it, as plain values: what the methods
/// of `tree_sitter::Node` tell, and the name of the field that the node is to
/// its parent.
#[verifier::external_body]
fn plain_node(node: tree_sitter::Node<'_>, field: Option<&str>) -> RawNode {
    let mut children = Vec::new();
    let mut cursor = node.walk();
    let mut more = cursor.goto_first_child();
    while more {
        children.push(plain_node(cursor.node(), cursor.field_name()));
        more = cursor.goto_next_sibling();
    }
    let (kind, field) = (node.kind().to_string(), field.map(str::to_string));
    let (named, error) = (node.is_named(), node.has_error());
    let (start, end) = (node.start_byte(), node.end_byte());
    let (row, col) = (node.start_position().row, node.start_position().column);
    RawNode { kind, field, named, error, start, end, row, col, children }
}

/// `Parser::parse` with the language of `tree-sitter-c`. The tree depends on
/// the text alone: no time limit is set.
#[verifier::external_body]
fn parse_c(source: &str) -> (r: Option<RawNode>)
    ensures
        opt_tree(r) == c_tree(source@),
{
    let mut parser = tree_sitter::Parser::new();
    parser.set_language(&tree_sitter_c::LANGUAGE.into()).ok()?;
    let tree = parser.parse(source, None)?;
    Some(plain_node(tree.root_node(), None))
}

/// `Parser::parse` with the language of `tree-sitter-cpp`. The tree depends
/// on the text alone: no time limit is set.
#[verifier::external_body]
fn parse_cpp(source: &str) -> (r: Option<RawNode>)
    ensures
        opt_tree(r) == cpp_tree(source@),
{
    let mut parser = tree_sitter::Parser::new();
    parser.set_language(&tree_sitter_cpp::LANGUAGE.into()).ok()?;
    let tree = parser.parse(source, None)?;
    Some(plain_node(tree.root_node(), None))
}

/// What a grammar makes of a text.
pub open spec fn tree_of(text: Seq<char>, lang: SourceLang) -> Option<RawV> {
    match lang {
        SourceLang::C => c_tree(text),
        SourceLang::Cpp => cpp_tree(text),
    }
}

/// A source and its syntax tree.
#[derive(Debug)]
pub struct ParseResult {
    pub tree: SyntaxNode,
    pub source: Vec<char>,
    /// Whether there is a syntax error in the source.
    pub has_errors: bool,
}

/// The mathematical form of a [`ParseResult`].
#[verifier::ext_equal]
pub struct ParsedV {
    pub tree: NodeV,
    pub source: Seq<char>,
    pub has_errors: bool,
}

impl View for ParseResult {
    type V = ParsedV;

    open spec fn view(&self) -> ParsedV {
        ParsedV { tree: self.tree@, source: self.source@, has_errors: self.has_errors }
    }
}

broadcast use children_viewed;

proof fn raws_view_index(s: Seq<RawNode>)
    ensures
        raws_view(s).len() == s.len(),
        forall|i: int| 0 <= i < s.len() ==> #[trigger] raws_view(s)[i] == s[i]@,
    decreases s.len(),
{
    if s.len() > 0 {
        raws_view_index(s.drop_last());
        assert forall|i: int| 0 <= i < s.len() implies #[trigger] raws_view(s)[i] == s[i]@ by {
            if i < s.len() - 1 {
                assert(raws_view(s)[i] == raws_view(s.drop_last())[i]);
            }
        }
    }
}

proof fn byte_len_grows(text: Seq<char>, a: int, b: int)
    requires
        0 <= a <= b <= text.len(),
    ensures
        byte_len(text.take(a)) <= byte_len(text.take(b)),
{
    assert(text.take(b) =~= text.take(a) + text.subrange(a, b));
    byte_len_concat(text.take(a), text.subrange(a, b));
}

proof fn byte_len_step(text: Seq<char>, i: int)
    requires
        0 <= i < text.len(),
    ensures
        byte_len(text.take(i + 1)) == byte_len(text.take(i)) + utf8_width(text[i]),
{
    assert(text.take(i + 1).drop_last() =~= text.take(i));
}

/// A byte that is behind the beginning of the character at `i`, and not
/// behind its end, has `i + 1` characters that begin before it.
proof fn chars_before_in(text: Seq<char>, byte: int, i: int, n: int)
    requires
        0 <= i < n <= text.len(),
        byte_len(text.take(i)) < byte <= byte_len(text.take(i + 1)),
    ensures
        chars_before(text, byte, n) == i + 1,
    decreases n,
{
    if n > i + 1 {
        byte_len_grows(text, i + 1, n - 1);
        chars_before_in(text, byte, i, n - 1);
    }
}

proof fn chars_before_all(text: Seq<char>, byte: int)
    requires
        byte > byte_len(text),
    ensures
        char_at(text, byte) == text.len(),
{
    if text.len() > 0 {
        byte_len_grows(text, text.len() - 1, text.len() as int);
        assert(text.take(text.len() as int) =~= text);
    }
}

proof fn chars_before_none(text: Seq<char>, n: int)
    requires
        n <= text.len(),
    ensures
        chars_before(text, 0, n) == 0,
    decreases n,
{
    if n > 0 {
        chars_before_none(text, n - 1);
    }
}

/// Where each byte of a text is, in characters.
fn byte_table(text: &Vec<char>) -> (r: Vec<usize>)
    ensures
        r@.len() == byte_len(text@) + 1,
        forall|b: int| 0 <= b < r@.len() ==> #[trigger] r@[b] == char_at(text@, b),
{
    let mut out: Vec<usize> = Vec::new();
    out.push(0);
    proof {
        chars_before_none(text@, text@.len() as int);
        assert(text@.take(0) =~= Seq::empty());
    }
    let n = text.len();
    let mut i: usize = 0;
    while i < n
        invariant
            i <= n == text@.len(),
            out@.len() == byte_len(text@.take(i as int)) + 1,
            forall|b: int| 0 <= b < out@.len() ==> #[trigger] out@[b] == char_at(text@, b),
        decreases text@.len() - i,
    {
        let w = char_width(text[i]);
        proof {
            byte_len_step(text@, i as int);
        }
        let mut k: usize = 0;
        while k < w
            invariant
                i < n == text@.len(),
                k <= w,
                w == utf8_width(text@[i as int]),
                byte_len(text@.take(i + 1)) == byte_len(text@.take(i as int)) + w,
                out@.len() == byte_len(text@.take(i as int)) + 1 + k,
                forall|b: int| 0 <= b < out@.len() ==> #[trigger] out@[b] == char_at(text@, b),
            decreases w - k,
        {
            proof {
                chars_before_in(
                    text@,
                    out@.len() as int,
                    i as int,
                    text@.len() as int,
                );
            }
            out.push(i + 1);
            k = k + 1;
        }
        i = i + 1;
    }
    assert(text@.take(i as int) =~= text@);
    out
}

fn look_up(table: &Vec<usize>, text: &Vec<char>, byte: usize) -> (r: usize)
    requires
        table@.len() == byte_len(text@) + 1,
        forall|b: int| 0 <= b < table@.len() ==> #[trigger] table@[b] == char_at(text@, b),
    ensures
        r == char_at(text@, byte as int),
{
    if byte < table.len() {
        table[byte]
    } else {
        proof {
            chars_before_all(text@, byte as int);
        }
        text.len()
    }
}

/// A parser's node, with its places in characters.
fn shape(raw: &RawNode, table: &Vec<usize>, text: &Vec<char>) -> (r: SyntaxNode)
    requires
        table@.len() == byte_len(text@) + 1,
        forall|b: int| 0 <= b < table@.len() ==> #[trigger] table@[b] == char_at(text@, b),
    ensures
        shaped(r@, raw@, text@),
    decreases raw,
{
    let mut children: Vec<SyntaxNode> = Vec::new();
    let mut i: usize = 0;
    proof {
        raws_view_index(raw.children@);
    }
    while i < raw.children.len()
        invariant
            table@.len() == byte_len(text@) + 1,
            forall|b: int| 0 <= b < table@.len() ==> #[trigger] table@[b] == char_at(text@, b),
            i <= raw.children@.len() == raws_view(raw.children@).len(),
            forall|j: int|
                0 <= j < raw.children@.len() ==> #[trigger] raws_view(raw.children@)[j]
                    == raw.children@[j]@,
            children@.len() == i,
            forall|j: int|
                0 <= j < i ==> shaped(
                    (#[trigger] children@[j])@,
                    raws_view(raw.children@)[j],
                    text@,
                ),
        decreases raw.children@.len() - i,
    {
        children.push(shape(&raw.children[i], table, text));
        i = i + 1;
    }
    let kind = find_kind(raw.kind.as_str());
    let field = match &raw.field {
        Some(f) => find_field(f.as_str()),
        None => FieldName::Other,
    };
    let from = look_up(table, text, raw.start);
    let to = look_up(table, text, raw.end);
    SyntaxNode {
        kind,
        field,
        named: raw.named,
        start: raw.start,
        from,
        to,
        row: raw.row as u32,
        col: raw.col as u32,
        children,
    }
}

/// The syntax tree of a source, from what a parser has made of it.
pub fn parsed(source: &str, raw: &RawNode) -> (r: ParseResult)
    ensures
        r.source@ == source@,
        r.has_errors == raw@.error,
        shaped(r.tree@, raw@, source@),
{
    let text = chars_of(source);
    let table = byte_table(&text);
    let tree = shape(raw, &table, &text);
    ParseResult { tree, source: text, has_errors: raw.error }
}

/// Parses a source with the grammar of its language. The C++ grammar has all
/// kinds of nodes of the C grammar that matter here.
pub fn parse_source_with_lang(source: &str, lang: SourceLang) -> (r: Result<ParseResult, String>)
    ensures
        match r {
            Ok(p) => tree_of(source@, lang) is Some && p.source@ == source@ && p.has_errors
                == tree_of(source@, lang)->0.error && shaped(
                p.tree@,
                tree_of(source@, lang)->0,
                source@,
            ),
            Err(e) => tree_of(source@, lang) is None && e@ == "tree-sitter returned no tree"@,
        },
{
    let raw = match lang {
        SourceLang::C => parse_c(source),
        SourceLang::Cpp => parse_cpp(source),
    };
    match raw {
        Some(n) => Ok(parsed(source, &n)),
        None => Err(owned("tree-sitter returned no tree")),
    }
}

/// Parses a C source.
pub fn parse_c_source(source: &str) -> (r: Result<ParseResult, String>)
    ensures
        match r {
            Ok(p) => c_tree(source@) is Some && p.source@ == source@ && p.has_errors == c_tree(
                source@,
            )->0.error && shaped(p.tree@, c_tree(source@)->0, source@),
            Err(e) => c_tree(source@) is None && e@ == "tree-sitter returned no tree"@,
        },
{
    parse_source_with_lang(source, SourceLang::C)
}

/// Whether there is a syntax error in a source.
pub fn has_parse_errors(parsed: &ParseResult) -> (r: bool)
    ensures
        r == parsed.has_errors,
{
    parsed.has_errors
}

} // verus!
