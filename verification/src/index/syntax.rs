//! Syntax trees.

use crate::text::{byte_len, str_eq, string_of};
use vstd::prelude::*;

verus! {

/// What a node of a syntax tree is.
#[derive(Debug, Clone, Copy, PartialEq, Eq, Structural)]
pub enum NodeKind {
    FunctionDefinition,
    Declaration,
    StructSpecifier,
    UnionSpecifier,
    ClassSpecifier,
    NamespaceDefinition,
    UsingDeclaration,
    TemplateDeclaration,
    TemplateParameterList,
    TypeDefinition,
    NamespaceIdentifier,
    DeclarationList,
    Identifier,
    QualifiedIdentifier,
    DestructorName,
    FunctionDeclarator,
    FieldIdentifier,
    TemplateType,
    BaseClassClause,
    TypeIdentifier,
    FieldDeclaration,
    ParameterDeclaration,
    FieldInitializerList,
    InitDeclarator,
    PlaceholderTypeSpecifier,
    NewExpression,
    Declarator,
    PointerDeclarator,
    ArrayDeclarator,
    ArgumentList,
    InitializerList,
    InitializerPair,
    DesignatedInitializer,
    FieldDesignator,
    AssignmentExpression,
    CallExpression,
    ReturnStatement,
    DeleteExpression,
    FieldExpression,
    ParenthesizedExpression,
    PointerExpression,
    CastExpression,
    SubscriptDesignator,
    SubscriptExpression,
    FieldInitializer,
    ParenthesizedDeclarator,
    TemplateFunction,
    StorageClassSpecifier,
    ReferenceDeclarator,
    This,
    NamespaceWord,
    VirtualWord,
    StaticWord,
    OpenParen,
    CloseParen,
    Comma,
    Dot,
    Arrow,
    Semicolon,
    OpenBrace,
    CloseBrace,
    Equals,
    /// Anything else.
    Other,
}

/// What a node is to its parent.
#[derive(Debug, Clone, Copy, PartialEq, Eq, Structural)]
pub enum FieldName {
    Declarator,
    Type,
    Name,
    Body,
    Value,
    Left,
    Right,
    Function,
    Arguments,
    Field,
    Argument,
    Operator,
    Expression,
    Parameters,
    /// Anything else, or nothing.
    Other,
}

/// The kind of a node that a grammar gives a name.
pub open spec fn kind_named(name: Seq<char>) -> NodeKind {
    if name == "function_definition"@ {
        NodeKind::FunctionDefinition
    } else if name == "declaration"@ {
        NodeKind::Declaration
    } else if name == "struct_specifier"@ {
        NodeKind::StructSpecifier
    } else if name == "union_specifier"@ {
        NodeKind::UnionSpecifier
    } else if name == "class_specifier"@ {
        NodeKind::ClassSpecifier
    } else if name == "namespace_definition"@ {
        NodeKind::NamespaceDefinition
    } else if name == "using_declaration"@ {
        NodeKind::UsingDeclaration
    } else if name == "template_declaration"@ {
        NodeKind::TemplateDeclaration
    } else if name == "template_parameter_list"@ {
        NodeKind::TemplateParameterList
    } else if name == "type_definition"@ {
        NodeKind::TypeDefinition
    } else if name == "namespace_identifier"@ {
        NodeKind::NamespaceIdentifier
    } else if name == "declaration_list"@ {
        NodeKind::DeclarationList
    } else if name == "identifier"@ {
        NodeKind::Identifier
    } else if name == "qualified_identifier"@ {
        NodeKind::QualifiedIdentifier
    } else if name == "destructor_name"@ {
        NodeKind::DestructorName
    } else if name == "function_declarator"@ {
        NodeKind::FunctionDeclarator
    } else if name == "field_identifier"@ {
        NodeKind::FieldIdentifier
    } else if name == "template_type"@ {
        NodeKind::TemplateType
    } else if name == "base_class_clause"@ {
        NodeKind::BaseClassClause
    } else if name == "type_identifier"@ {
        NodeKind::TypeIdentifier
    } else if name == "field_declaration"@ {
        NodeKind::FieldDeclaration
    } else if name == "parameter_declaration"@ {
        NodeKind::ParameterDeclaration
    } else if name == "field_initializer_list"@ {
        NodeKind::FieldInitializerList
    } else if name == "init_declarator"@ {
        NodeKind::InitDeclarator
    } else if name == "placeholder_type_specifier"@ {
        NodeKind::PlaceholderTypeSpecifier
    } else if name == "new_expression"@ {
        NodeKind::NewExpression
    } else if name == "declarator"@ {
        NodeKind::Declarator
    } else if name == "pointer_declarator"@ {
        NodeKind::PointerDeclarator
    } else if name == "array_declarator"@ {
        NodeKind::ArrayDeclarator
    } else if name == "argument_list"@ {
        NodeKind::ArgumentList
    } else if name == "initializer_list"@ {
        NodeKind::InitializerList
    } else if name == "initializer_pair"@ {
        NodeKind::InitializerPair
    } else if name == "designated_initializer"@ {
        NodeKind::DesignatedInitializer
    } else if name == "field_designator"@ {
        NodeKind::FieldDesignator
    } else if name == "assignment_expression"@ {
        NodeKind::AssignmentExpression
    } else if name == "call_expression"@ {
        NodeKind::CallExpression
    } else if name == "return_statement"@ {
        NodeKind::ReturnStatement
    } else if name == "delete_expression"@ {
        NodeKind::DeleteExpression
    } else if name == "field_expression"@ {
        NodeKind::FieldExpression
    } else if name == "parenthesized_expression"@ {
        NodeKind::ParenthesizedExpression
    } else if name == "pointer_expression"@ {
        NodeKind::PointerExpression
    } else if name == "cast_expression"@ {
        NodeKind::CastExpression
    } else if name == "subscript_designator"@ {
        NodeKind::SubscriptDesignator
    } else if name == "subscript_expression"@ {
        NodeKind::SubscriptExpression
    } else if name == "field_initializer"@ {
        NodeKind::FieldInitializer
    } else if name == "parenthesized_declarator"@ {
        NodeKind::ParenthesizedDeclarator
    } else if name == "template_function"@ {
        NodeKind::TemplateFunction
    } else if name == "storage_class_specifier"@ {
        NodeKind::StorageClassSpecifier
    } else if name == "reference_declarator"@ {
        NodeKind::ReferenceDeclarator
    } else if name == "this"@ {
        NodeKind::This
    } else if name == "namespace"@ {
        NodeKind::NamespaceWord
    } else if name == "virtual"@ {
        NodeKind::VirtualWord
    } else if name == "static"@ {
        NodeKind::StaticWord
    } else if name == "("@ {
        NodeKind::OpenParen
    } else if name == ")"@ {
        NodeKind::CloseParen
    } else if name == ","@ {
        NodeKind::Comma
    } else if name == "."@ {
        NodeKind::Dot
    } else if name == "->"@ {
        NodeKind::Arrow
    } else if name == ";"@ {
        NodeKind::Semicolon
    } else if name == "{"@ {
        NodeKind::OpenBrace
    } else if name == "}"@ {
        NodeKind::CloseBrace
    } else if name == "="@ {
        NodeKind::Equals
    } else {
        NodeKind::Other
    }
}

pub fn find_kind(name: &str) -> (r: NodeKind)
    ensures
        r == kind_named(name@),
{
    if str_eq(name, "function_definition") {
        NodeKind::FunctionDefinition
    } else if str_eq(name, "declaration") {
        NodeKind::Declaration
    } else if str_eq(name, "struct_specifier") {
        NodeKind::StructSpecifier
    } else if str_eq(name, "union_specifier") {
        NodeKind::UnionSpecifier
    } else if str_eq(name, "class_specifier") {
        NodeKind::ClassSpecifier
    } else if str_eq(name, "namespace_definition") {
        NodeKind::NamespaceDefinition
    } else if str_eq(name, "using_declaration") {
        NodeKind::UsingDeclaration
    } else if str_eq(name, "template_declaration") {
        NodeKind::TemplateDeclaration
    } else if str_eq(name, "template_parameter_list") {
        NodeKind::TemplateParameterList
    } else if str_eq(name, "type_definition") {
        NodeKind::TypeDefinition
    } else if str_eq(name, "namespace_identifier") {
        NodeKind::NamespaceIdentifier
    } else if str_eq(name, "declaration_list") {
        NodeKind::DeclarationList
    } else if str_eq(name, "identifier") {
        NodeKind::Identifier
    } else if str_eq(name, "qualified_identifier") {
        NodeKind::QualifiedIdentifier
    } else if str_eq(name, "destructor_name") {
        NodeKind::DestructorName
    } else if str_eq(name, "function_declarator") {
        NodeKind::FunctionDeclarator
    } else if str_eq(name, "field_identifier") {
        NodeKind::FieldIdentifier
    } else if str_eq(name, "template_type") {
        NodeKind::TemplateType
    } else if str_eq(name, "base_class_clause") {
        NodeKind::BaseClassClause
    } else if str_eq(name, "type_identifier") {
        NodeKind::TypeIdentifier
    } else if str_eq(name, "field_declaration") {
        NodeKind::FieldDeclaration
    } else if str_eq(name, "parameter_declaration") {
        NodeKind::ParameterDeclaration
    } else if str_eq(name, "field_initializer_list") {
        NodeKind::FieldInitializerList
    } else if str_eq(name, "init_declarator") {
        NodeKind::InitDeclarator
    } else if str_eq(name, "placeholder_type_specifier") {
        NodeKind::PlaceholderTypeSpecifier
    } else if str_eq(name, "new_expression") {
        NodeKind::NewExpression
    } else if str_eq(name, "declarator") {
        NodeKind::Declarator
    } else if str_eq(name, "pointer_declarator") {
        NodeKind::PointerDeclarator
    } else if str_eq(name, "array_declarator") {
        NodeKind::ArrayDeclarator
    } else if str_eq(name, "argument_list") {
        NodeKind::ArgumentList
    } else if str_eq(name, "initializer_list") {
        NodeKind::InitializerList
    } else if str_eq(name, "initializer_pair") {
        NodeKind::InitializerPair
    } else if str_eq(name, "designated_initializer") {
        NodeKind::DesignatedInitializer
    } else if str_eq(name, "field_designator") {
        NodeKind::FieldDesignator
    } else if str_eq(name, "assignment_expression") {
        NodeKind::AssignmentExpression
    } else if str_eq(name, "call_expression") {
        NodeKind::CallExpression
    } else if str_eq(name, "return_statement") {
        NodeKind::ReturnStatement
    } else if str_eq(name, "delete_expression") {
        NodeKind::DeleteExpression
    } else if str_eq(name, "field_expression") {
        NodeKind::FieldExpression
    } else if str_eq(name, "parenthesized_expression") {
        NodeKind::ParenthesizedExpression
    } else if str_eq(name, "pointer_expression") {
        NodeKind::PointerExpression
    } else if str_eq(name, "cast_expression") {
        NodeKind::CastExpression
    } else if str_eq(name, "subscript_designator") {
        NodeKind::SubscriptDesignator
    } else if str_eq(name, "subscript_expression") {
        NodeKind::SubscriptExpression
    } else if str_eq(name, "field_initializer") {
        NodeKind::FieldInitializer
    } else if str_eq(name, "parenthesized_declarator") {
        NodeKind::ParenthesizedDeclarator
    } else if str_eq(name, "template_function") {
        NodeKind::TemplateFunction
    } else if str_eq(name, "storage_class_specifier") {
        NodeKind::StorageClassSpecifier
    } else if str_eq(name, "reference_declarator") {
        NodeKind::ReferenceDeclarator
    } else if str_eq(name, "this") {
        NodeKind::This
    } else if str_eq(name, "namespace") {
        NodeKind::NamespaceWord
    } else if str_eq(name, "virtual") {
        NodeKind::VirtualWord
    } else if str_eq(name, "static") {
        NodeKind::StaticWord
    } else if str_eq(name, "(") {
        NodeKind::OpenParen
    } else if str_eq(name, ")") {
        NodeKind::CloseParen
    } else if str_eq(name, ",") {
        NodeKind::Comma
    } else if str_eq(name, ".") {
        NodeKind::Dot
    } else if str_eq(name, "->") {
        NodeKind::Arrow
    } else if str_eq(name, ";") {
        NodeKind::Semicolon
    } else if str_eq(name, "{") {
        NodeKind::OpenBrace
    } else if str_eq(name, "}") {
        NodeKind::CloseBrace
    } else if str_eq(name, "=") {
        NodeKind::Equals
    } else {
        NodeKind::Other
    }
}

/// The field that a grammar gives a name.
pub open spec fn field_named(name: Seq<char>) -> FieldName {
    if name == "declarator"@ {
        FieldName::Declarator
    } else if name == "type"@ {
        FieldName::Type
    } else if name == "name"@ {
        FieldName::Name
    } else if name == "body"@ {
        FieldName::Body
    } else if name == "value"@ {
        FieldName::Value
    } else if name == "left"@ {
        FieldName::Left
    } else if name == "right"@ {
        FieldName::Right
    } else if name == "function"@ {
        FieldName::Function
    } else if name == "arguments"@ {
        FieldName::Arguments
    } else if name == "field"@ {
        FieldName::Field
    } else if name == "argument"@ {
        FieldName::Argument
    } else if name == "operator"@ {
        FieldName::Operator
    } else if name == "expression"@ {
        FieldName::Expression
    } else if name == "parameters"@ {
        FieldName::Parameters
    } else {
        FieldName::Other
    }
}

pub fn find_field(name: &str) -> (r: FieldName)
    ensures
        r == field_named(name@),
{
    if str_eq(name, "declarator") {
        FieldName::Declarator
    } else if str_eq(name, "type") {
        FieldName::Type
    } else if str_eq(name, "name") {
        FieldName::Name
    } else if str_eq(name, "body") {
        FieldName::Body
    } else if str_eq(name, "value") {
        FieldName::Value
    } else if str_eq(name, "left") {
        FieldName::Left
    } else if str_eq(name, "right") {
        FieldName::Right
    } else if str_eq(name, "function") {
        FieldName::Function
    } else if str_eq(name, "arguments") {
        FieldName::Arguments
    } else if str_eq(name, "field") {
        FieldName::Field
    } else if str_eq(name, "argument") {
        FieldName::Argument
    } else if str_eq(name, "operator") {
        FieldName::Operator
    } else if str_eq(name, "expression") {
        FieldName::Expression
    } else if str_eq(name, "parameters") {
        FieldName::Parameters
    } else {
        FieldName::Other
    }
}

/// A node as a parser gives it: names are those of the grammar, places are
/// counted in bytes.
#[derive(Debug)]
pub struct RawNode {
    pub kind: String,
    /// What the node is to its parent.
    pub field: Option<String>,
    pub named: bool,
    /// Whether there is a syntax error in the node.
    pub error: bool,
    pub start: usize,
    pub end: usize,
    pub row: usize,
    pub col: usize,
    pub children: Vec<RawNode>,
}

/// The mathematical form of a [`RawNode`].
pub struct RawV {
    pub kind: Seq<char>,
    pub field: Option<Seq<char>>,
    pub named: bool,
    pub error: bool,
    pub start: usize,
    pub end: usize,
    pub row: usize,
    pub col: usize,
    pub children: Seq<RawV>,
}

pub open spec fn raw_view(n: RawNode) -> RawV
    decreases n,
{
    RawV {
        kind: n.kind@,
        field: match n.field {
            Some(f) => Some(f@),
            None => None,
        },
        named: n.named,
        error: n.error,
        start: n.start,
        end: n.end,
        row: n.row,
        col: n.col,
        children: raws_view(n.children@),
    }
}

pub open spec fn raws_view(s: Seq<RawNode>) -> Seq<RawV>
    decreases s,
{
    if s.len() == 0 {
        Seq::empty()
    } else {
        raws_view(s.drop_last()).push(raw_view(s.last()))
    }
}

impl View for RawNode {
    type V = RawV;

    open spec fn view(&self) -> RawV {
        raw_view(*self)
    }
}

/// A node of a syntax tree. Places in the text are counted in characters.
#[derive(Debug)]
pub struct SyntaxNode {
    pub kind: NodeKind,
    pub field: FieldName,
    pub named: bool,
    /// Where the node begins, in bytes.
    pub start: usize,
    pub from: usize,
    pub to: usize,
    pub row: u32,
    pub col: u32,
    pub children: Vec<SyntaxNode>,
}

/// The mathematical form of a [`SyntaxNode`].
#[verifier::ext_equal]
pub struct NodeV {
    pub kind: NodeKind,
    pub field: FieldName,
    pub named: bool,
    pub start: usize,
    pub from: usize,
    pub to: usize,
    pub row: u32,
    pub col: u32,
    pub children: Seq<NodeV>,
}

pub open spec fn node_view(n: SyntaxNode) -> NodeV
    decreases n,
{
    NodeV {
        kind: n.kind,
        field: n.field,
        named: n.named,
        start: n.start,
        from: n.from,
        to: n.to,
        row: n.row,
        col: n.col,
        children: nodes_view(n.children@),
    }
}

pub open spec fn nodes_view(s: Seq<SyntaxNode>) -> Seq<NodeV>
    decreases s,
{
    if s.len() == 0 {
        Seq::empty()
    } else {
        nodes_view(s.drop_last()).push(node_view(s.last()))
    }
}

impl View for SyntaxNode {
    type V = NodeV;

    open spec fn view(&self) -> NodeV {
        node_view(*self)
    }
}

proof fn nodes_viewed(s: Seq<SyntaxNode>)
    ensures
        nodes_view(s).len() == s.len(),
        forall|i: int| 0 <= i < s.len() ==> #[trigger] nodes_view(s)[i] == node_view(s[i]),
    decreases s.len(),
{
    if s.len() > 0 {
        nodes_viewed(s.drop_last());
        assert forall|i: int| 0 <= i < s.len() implies #[trigger] nodes_view(s)[i] == node_view(
            s[i],
        ) by {
            if i < s.len() - 1 {
                assert(nodes_view(s)[i] == nodes_view(s.drop_last())[i]);
            }
        }
    }
}

/// The children of a node, one by one.
pub broadcast proof fn children_viewed(n: SyntaxNode)
    ensures
        (#[trigger] node_view(n)).children.len() == n.children@.len(),
        forall|i: int|
            #![trigger node_view(n).children[i]]
            #![trigger node_view(n.children@[i])]
            0 <= i < n.children@.len() ==> node_view(n).children[i] == node_view(n.children@[i]),
{
    nodes_viewed(n.children@);
}

/// How many characters of a text begin before a byte.
pub open spec fn chars_before(text: Seq<char>, byte: int, n: int) -> int
    decreases n,
{
    if n <= 0 {
        0
    } else if byte_len(text.take(n - 1)) < byte {
        n
    } else {
        chars_before(text, byte, n - 1)
    }
}

/// Where a byte is, in characters.
pub open spec fn char_at(text: Seq<char>, byte: int) -> int {
    chars_before(text, byte, text.len() as int)
}

/// Whether a node is a parser's node, with its places in characters.
pub open spec fn shaped(n: NodeV, raw: RawV, text: Seq<char>) -> bool
    decreases n,
{
    &&& n.kind == kind_named(raw.kind)
    &&& n.field == (match raw.field {
        Some(f) => field_named(f),
        None => FieldName::Other,
    })
    &&& n.named == raw.named
    &&& n.start == raw.start
    &&& n.from == char_at(text, raw.start as int)
    &&& n.to == char_at(text, raw.end as int)
    &&& n.row == raw.row as u32
    &&& n.col == raw.col as u32
    &&& n.children.len() == raw.children.len()
    &&& forall|i: int|
        0 <= i < n.children.len() ==> shaped(#[trigger] n.children[i], raw.children[i], text)
}

/// A parser's node has one form.
pub proof fn shapes_are_one(a: NodeV, b: NodeV, raw: RawV, text: Seq<char>)
    requires
        shaped(a, raw, text),
        shaped(b, raw, text),
    ensures
        a == b,
    decreases a,
{
    assert forall|i: int| 0 <= i < a.children.len() implies a.children[i] == b.children[i] by {
        assert(shaped(a.children[i], raw.children[i], text));
        assert(shaped(b.children[i], raw.children[i], text));
        shapes_are_one(a.children[i], b.children[i], raw.children[i], text);
    }
    assert(a.children =~= b.children);
}

/// What a node covers of a text.
pub open spec fn text_of(text: Seq<char>, n: NodeV) -> Seq<char> {
    if n.from <= n.to <= text.len() {
        text.subrange(n.from as int, n.to as int)
    } else {
        Seq::empty()
    }
}

/// What a node covers of a text.
pub fn node_text(source: &Vec<char>, node: &SyntaxNode) -> (r: String)
    ensures
        r@ == text_of(source@, node@),
{
    if node.from <= node.to && node.to <= source.len() {
        string_of(source, node.from, node.to)
    } else {
        let r = String::new();
        assert(r@ =~= Seq::empty());
        r
    }
}

/// The first child from `i` on that is a field.
pub open spec fn field_from(n: NodeV, f: FieldName, i: int) -> Option<NodeV>
    decreases n.children.len() - i,
{
    if i < 0 || i >= n.children.len() {
        None
    } else if n.children[i].field == f {
        Some(n.children[i])
    } else {
        field_from(n, f, i + 1)
    }
}

/// The child that is a field.
pub open spec fn child_field(n: NodeV, f: FieldName) -> Option<NodeV> {
    field_from(n, f, 0)
}

/// The `k`th named child from `i` on.
pub open spec fn named_from(n: NodeV, k: nat, i: int) -> Option<NodeV>
    decreases n.children.len() - i,
{
    if i < 0 || i >= n.children.len() {
        None
    } else if n.children[i].named {
        if k == 0 {
            Some(n.children[i])
        } else {
            named_from(n, (k - 1) as nat, i + 1)
        }
    } else {
        named_from(n, k, i + 1)
    }
}

/// The `k`th named child.
pub open spec fn named_child(n: NodeV, k: nat) -> Option<NodeV> {
    named_from(n, k, 0)
}

/// The first child from `i` on that is of a kind.
pub open spec fn kind_from(n: NodeV, kind: NodeKind, i: int) -> Option<NodeV>
    decreases n.children.len() - i,
{
    if i < 0 || i >= n.children.len() {
        None
    } else if n.children[i].kind == kind {
        Some(n.children[i])
    } else {
        kind_from(n, kind, i + 1)
    }
}

/// The first child of a kind.
pub open spec fn child_kind(n: NodeV, kind: NodeKind) -> Option<NodeV> {
    kind_from(n, kind, 0)
}

/// A field is a child, and so smaller than the node.
pub broadcast proof fn field_from_smaller(n: NodeV, f: FieldName, i: int)
    ensures
        (#[trigger] field_from(n, f, i)) is Some ==> decreases_to!(n => field_from(n, f, i)->0),
    decreases n.children.len() - i,
{
    if 0 <= i < n.children.len() && n.children[i].field != f {
        field_from_smaller(n, f, i + 1);
    }
}

pub broadcast proof fn named_from_smaller(n: NodeV, k: nat, i: int)
    ensures
        (#[trigger] named_from(n, k, i)) is Some ==> decreases_to!(n => named_from(n, k, i)->0),
    decreases n.children.len() - i,
{
    if 0 <= i < n.children.len() {
        if n.children[i].named {
            if k > 0 {
                named_from_smaller(n, (k - 1) as nat, i + 1);
            }
        } else {
            named_from_smaller(n, k, i + 1);
        }
    }
}

pub broadcast proof fn kind_from_smaller(n: NodeV, kind: NodeKind, i: int)
    ensures
        (#[trigger] kind_from(n, kind, i)) is Some ==> decreases_to!(n => kind_from(n, kind, i)->0),
    decreases n.children.len() - i,
{
    if 0 <= i < n.children.len() && n.children[i].kind != kind {
        kind_from_smaller(n, kind, i + 1);
    }
}

impl SyntaxNode {
    /// The child that is a field.
    pub fn child_by_field(&self, f: FieldName) -> (r: Option<&SyntaxNode>)
        ensures
            match r {
                Some(c) => child_field(self@, f) == Some(c@) && decreases_to!(self@ => c@),
                None => child_field(self@, f) is None,
            },
    {
        broadcast use children_viewed;

        let mut i: usize = 0;
        while i < self.children.len()
            invariant
                i <= self@.children.len(),
                field_from(self@, f, i as int) == field_from(self@, f, 0),
            decreases self@.children.len() - i,
        {
            broadcast use children_viewed;

            if self.children[i].field == f {
                proof {
                    field_from_smaller(self@, f, 0);
                }
                return Some(&self.children[i]);
            }
            i = i + 1;
        }
        None
    }

    /// The `k`th named child.
    pub fn named_child(&self, k: usize) -> (r: Option<&SyntaxNode>)
        ensures
            match r {
                Some(c) => named_child(self@, k as nat) == Some(c@) && decreases_to!(self@ => c@),
                None => named_child(self@, k as nat) is None,
            },
    {
        broadcast use children_viewed;

        let mut i: usize = 0;
        let mut left: usize = k;
        while i < self.children.len()
            invariant
                i <= self@.children.len(),
                named_from(self@, left as nat, i as int) == named_from(self@, k as nat, 0),
            decreases self@.children.len() - i,
        {
            broadcast use children_viewed;

            if self.children[i].named {
                if left == 0 {
                    proof {
                        named_from_smaller(self@, k as nat, 0);
                    }
                    return Some(&self.children[i]);
                }
                left = left - 1;
            }
            i = i + 1;
        }
        None
    }

    /// The first child of a kind.
    pub fn child_by_kind(&self, kind: NodeKind) -> (r: Option<&SyntaxNode>)
        ensures
            match r {
                Some(c) => child_kind(self@, kind) == Some(c@) && decreases_to!(self@ => c@),
                None => child_kind(self@, kind) is None,
            },
    {
        broadcast use children_viewed;

        let mut i: usize = 0;
        while i < self.children.len()
            invariant
                i <= self@.children.len(),
                kind_from(self@, kind, i as int) == kind_from(self@, kind, 0),
            decreases self@.children.len() - i,
        {
            broadcast use children_viewed;

            if self.children[i].kind == kind {
                proof {
                    kind_from_smaller(self@, kind, 0);
                }
                return Some(&self.children[i]);
            }
            i = i + 1;
        }
        None
    }
}

} // verus!
