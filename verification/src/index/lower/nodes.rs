//! What can be read off a syntax tree alone.

use crate::index::names::{normal_name, normalize_qualified};
use crate::index::syntax::{
    child_field, child_kind, children_viewed, field_from_smaller, named_child, named_from_smaller,
    node_text, text_of, FieldName, NodeKind, NodeV, SyntaxNode,
};
use crate::ir::symbol::{count_up, next_number};
use crate::ir::types::{params_view, params_view_index, DescV, TypeDesc};
use crate::text::{cat3, names_view, push_name, str_eq};
use vstd::prelude::*;

verus! {

broadcast use children_viewed;

/// An expression without the parentheses around it.
pub open spec fn peeled(n: NodeV) -> NodeV
    decreases n,
{
    if n.kind == NodeKind::ParenthesizedExpression {
        match named_child(n, 0) {
            Some(c) => {
                proof {
                    named_from_smaller(n, 0, 0);
                }
                peeled(c)
            },
            None => n,
        }
    } else {
        n
    }
}

/// An expression without the parentheses around it.
pub fn peel_expression(n: &SyntaxNode) -> (r: &SyntaxNode)
    ensures
        r@ == peeled(n@),
    decreases n@,
{
    if n.kind == NodeKind::ParenthesizedExpression {
        match n.named_child(0) {
            Some(c) => peel_expression(c),
            None => n,
        }
    } else {
        n
    }
}

/// What is peeled is not larger than the node.
pub proof fn peeled_not_larger(n: NodeV)
    ensures
        peeled(n) == n || decreases_to!(n => peeled(n)),
    decreases n,
{
    if n.kind == NodeKind::ParenthesizedExpression {
        named_from_smaller(n, 0, 0);
        match named_child(n, 0) {
            Some(c) => {
                peeled_not_larger(c);
            },
            None => {},
        }
    }
}

/// Whether a member is declared as a function: its name, and not a pointer,
/// is what has parameters.
pub open spec fn declares_function(n: NodeV) -> bool
    decreases n, 1int, 0int,
{
    if n.kind == NodeKind::DestructorName {
        true
    } else if n.kind == NodeKind::FunctionDeclarator {
        match child_field(n, FieldName::Declarator) {
            Some(inner) => {
                proof {
                    field_from_smaller(n, FieldName::Declarator, 0);
                }
                ||| inner.kind == NodeKind::FieldIdentifier
                ||| inner.kind == NodeKind::Identifier
                ||| inner.kind == NodeKind::QualifiedIdentifier
                ||| declares_function(inner)
            },
            None => false,
        }
    } else {
        child_declares_function(n, n.children.len() as int)
    }
}

/// Whether one of the first `k` children declares a function.
pub open spec fn child_declares_function(n: NodeV, k: int) -> bool
    decreases n, 0int, k,
{
    if k <= 0 || k > n.children.len() {
        false
    } else {
        child_declares_function(n, k - 1) || declares_function(n.children[k - 1])
    }
}

pub fn member_decl_is_function(n: &SyntaxNode) -> (r: bool)
    ensures
        r == declares_function(n@),
    decreases n@,
{
    match n.kind {
        NodeKind::DestructorName => true,
        NodeKind::FunctionDeclarator => match n.child_by_field(FieldName::Declarator) {
            Some(inner) => {
                if inner.kind == NodeKind::FieldIdentifier || inner.kind == NodeKind::Identifier
                    || inner.kind == NodeKind::QualifiedIdentifier {
                    true
                } else {
                    member_decl_is_function(inner)
                }
            },
            None => false,
        },
        _ => {
            let mut i: usize = 0;
            let mut found = false;
            while i < n.children.len()
                invariant
                    i <= n@.children.len(),
                    found == child_declares_function(n@, i as int),
                decreases n@.children.len() - i,
            {
                let one = member_decl_is_function(&n.children[i]);
                found = found || one;
                i = i + 1;
            }
            found
        },
    }
}

/// Whether a declaration is marked `virtual`.
pub open spec fn is_virtual(n: NodeV) -> bool {
    child_kind(n, NodeKind::VirtualWord) is Some
}

/// The bare name that a member declares.
pub open spec fn short_name(src: Seq<char>, n: NodeV) -> Option<Seq<char>>
    decreases n, 1int, 0int,
{
    if n.kind == NodeKind::DestructorName || n.kind == NodeKind::FieldIdentifier || n.kind
        == NodeKind::Identifier {
        Some(normal_name(text_of(src, n)))
    } else if n.kind == NodeKind::FunctionDeclarator {
        match child_field(n, FieldName::Declarator) {
            Some(inner) => {
                proof {
                    field_from_smaller(n, FieldName::Declarator, 0);
                }
                short_name(src, inner)
            },
            None => None,
        }
    } else {
        child_short_name(src, n, 0)
    }
}

/// The first bare name that one of the children from `i` on declares.
pub open spec fn child_short_name(src: Seq<char>, n: NodeV, i: int) -> Option<Seq<char>>
    decreases n, 0int, n.children.len() - i,
{
    if i < 0 || i >= n.children.len() {
        None
    } else {
        match short_name(src, n.children[i]) {
            Some(s) => Some(s),
            None => child_short_name(src, n, i + 1),
        }
    }
}

/// A text that may be missing.
pub open spec fn opt_text(s: Option<String>) -> Option<Seq<char>> {
    match s {
        Some(x) => Some(x@),
        None => None,
    }
}

pub fn member_short_name(src: &Vec<char>, n: &SyntaxNode) -> (r: Option<String>)
    ensures
        opt_text(r) == short_name(src@, n@),
    decreases n@,
{
    match n.kind {
        NodeKind::DestructorName | NodeKind::FieldIdentifier | NodeKind::Identifier => {
            let t = node_text(src, n);
            Some(normalize_qualified(t.as_str()))
        },
        NodeKind::FunctionDeclarator => match n.child_by_field(FieldName::Declarator) {
            Some(inner) => member_short_name(src, inner),
            None => None,
        },
        _ => {
            let mut i: usize = 0;
            while i < n.children.len()
                invariant
                    i <= n@.children.len(),
                    child_short_name(src@, n@, i as int) == short_name(src@, n@),
                decreases n@.children.len() - i,
            {
                let one = member_short_name(src, &n.children[i]);
                if one.is_some() {
                    return one;
                }
                i = i + 1;
            }
            None
        },
    }
}

/// The declarator with parameters that comes first in a node.
pub open spec fn function_declarator(n: NodeV) -> Option<NodeV>
    decreases n, 1int, 0int,
{
    if n.kind == NodeKind::FunctionDeclarator {
        Some(n)
    } else {
        child_function_declarator(n, 0)
    }
}

pub open spec fn child_function_declarator(n: NodeV, i: int) -> Option<NodeV>
    decreases n, 0int, n.children.len() - i,
{
    if i < 0 || i >= n.children.len() {
        None
    } else {
        match function_declarator(n.children[i]) {
            Some(d) => Some(d),
            None => child_function_declarator(n, i + 1),
        }
    }
}

pub fn find_function_declarator(n: &SyntaxNode) -> (r: Option<&SyntaxNode>)
    ensures
        match r {
            Some(d) => function_declarator(n@) == Some(d@),
            None => function_declarator(n@) is None,
        },
    decreases n@,
{
    if n.kind == NodeKind::FunctionDeclarator {
        return Some(n);
    }
    let mut i: usize = 0;
    while i < n.children.len()
        invariant
            i <= n@.children.len(),
            child_function_declarator(n@, i as int) == function_declarator(n@),
        decreases n@.children.len() - i,
    {
        let one = find_function_declarator(&n.children[i]);
        if one.is_some() {
            return one;
        }
        i = i + 1;
    }
    None
}

/// Whether a declarator declares an array.
pub open spec fn is_array_declarator(n: NodeV) -> bool
    decreases n, 1int, 0int,
{
    n.kind == NodeKind::ArrayDeclarator || child_is_array(n, n.children.len() as int)
}

pub open spec fn child_is_array(n: NodeV, k: int) -> bool
    decreases n, 0int, k,
{
    if k <= 0 || k > n.children.len() {
        false
    } else {
        child_is_array(n, k - 1) || is_array_declarator(n.children[k - 1])
    }
}

pub fn declarator_is_array(n: &SyntaxNode) -> (r: bool)
    ensures
        r == is_array_declarator(n@),
    decreases n@,
{
    if n.kind == NodeKind::ArrayDeclarator {
        return true;
    }
    let mut i: usize = 0;
    let mut found = false;
    while i < n.children.len()
        invariant
            i <= n@.children.len(),
            found == child_is_array(n@, i as int),
        decreases n@.children.len() - i,
    {
        let one = declarator_is_array(&n.children[i]);
        found = found || one;
        i = i + 1;
    }
    found
}

/// The parameters of the first declarator in a node that has any.
pub open spec fn parameters(n: NodeV) -> Option<NodeV>
    decreases n, 1int, 0int,
{
    if n.kind == NodeKind::FunctionDeclarator {
        child_field(n, FieldName::Parameters)
    } else {
        child_parameters(n, 0)
    }
}

pub open spec fn child_parameters(n: NodeV, i: int) -> Option<NodeV>
    decreases n, 0int, n.children.len() - i,
{
    if i < 0 || i >= n.children.len() {
        None
    } else {
        match parameters(n.children[i]) {
            Some(p) => Some(p),
            None => child_parameters(n, i + 1),
        }
    }
}

pub fn find_params(n: &SyntaxNode) -> (r: Option<&SyntaxNode>)
    ensures
        match r {
            Some(p) => parameters(n@) == Some(p@),
            None => parameters(n@) is None,
        },
    decreases n@,
{
    if n.kind == NodeKind::FunctionDeclarator {
        return n.child_by_field(FieldName::Parameters);
    }
    let mut i: usize = 0;
    while i < n.children.len()
        invariant
            i <= n@.children.len(),
            child_parameters(n@, i as int) == parameters(n@),
        decreases n@.children.len() - i,
    {
        let one = find_params(&n.children[i]);
        if one.is_some() {
            return one;
        }
        i = i + 1;
    }
    None
}

/// Whether a declarator declares a pointer to a function.
pub open spec fn is_fn_pointer(n: NodeV) -> bool {
    n.kind == NodeKind::FunctionDeclarator && match child_field(n, FieldName::Declarator) {
        Some(d) => d.kind == NodeKind::ParenthesizedDeclarator || d.kind
            == NodeKind::PointerDeclarator,
        None => false,
    }
}

pub fn is_function_pointer_declarator(n: &SyntaxNode) -> (r: bool)
    ensures
        r == is_fn_pointer(n@),
{
    if n.kind != NodeKind::FunctionDeclarator {
        return false;
    }
    match n.child_by_field(FieldName::Declarator) {
        Some(d) => d.kind == NodeKind::ParenthesizedDeclarator || d.kind
            == NodeKind::PointerDeclarator,
        None => false,
    }
}

/// Whether a declarator declares a pointer.
pub open spec fn is_pointer_declarator(n: NodeV) -> bool
    decreases n,
{
    if n.kind == NodeKind::PointerDeclarator {
        true
    } else if n.kind == NodeKind::FunctionDeclarator || n.kind == NodeKind::ParenthesizedDeclarator
        || n.kind == NodeKind::ArrayDeclarator {
        match child_field(n, FieldName::Declarator) {
            Some(d) => {
                proof {
                    field_from_smaller(n, FieldName::Declarator, 0);
                }
                is_pointer_declarator(d)
            },
            None => false,
        }
    } else {
        false
    }
}

pub fn declarator_is_pointer(n: &SyntaxNode) -> (r: bool)
    ensures
        r == is_pointer_declarator(n@),
    decreases n@,
{
    match n.kind {
        NodeKind::PointerDeclarator => true,
        NodeKind::FunctionDeclarator | NodeKind::ParenthesizedDeclarator
        | NodeKind::ArrayDeclarator => match n.child_by_field(FieldName::Declarator) {
            Some(d) => declarator_is_pointer(d),
            None => false,
        },
        _ => false,
    }
}

/// The function that is declared behind pointers, and how many pointers there
/// are.
pub open spec fn fn_behind_pointers(n: NodeV, depth: u32) -> Option<(NodeV, u32)>
    decreases n,
{
    if n.kind == NodeKind::PointerDeclarator {
        match child_field(n, FieldName::Declarator) {
            Some(d) => {
                proof {
                    field_from_smaller(n, FieldName::Declarator, 0);
                }
                fn_behind_pointers(d, next_number(depth))
            },
            None => match named_child(n, 0) {
                Some(d) => {
                    proof {
                        named_from_smaller(n, 0, 0);
                    }
                    fn_behind_pointers(d, next_number(depth))
                },
                None => None,
            },
        }
    } else if n.kind == NodeKind::ParenthesizedDeclarator {
        match named_child(n, 0) {
            Some(d) => {
                proof {
                    named_from_smaller(n, 0, 0);
                }
                fn_behind_pointers(d, depth)
            },
            None => None,
        }
    } else if n.kind == NodeKind::FunctionDeclarator && !is_fn_pointer(n) {
        Some((n, depth))
    } else {
        None
    }
}

pub fn fn_decl_under_pointer(n: &SyntaxNode, depth: u32) -> (r: Option<(&SyntaxNode, u32)>)
    ensures
        match r {
            Some((d, k)) => fn_behind_pointers(n@, depth) == Some((d@, k)),
            None => fn_behind_pointers(n@, depth) is None,
        },
    decreases n@,
{
    match n.kind {
        NodeKind::PointerDeclarator => match n.child_by_field(FieldName::Declarator) {
            Some(d) => fn_decl_under_pointer(d, count_up(depth)),
            None => match n.named_child(0) {
                Some(d) => fn_decl_under_pointer(d, count_up(depth)),
                None => None,
            },
        },
        NodeKind::ParenthesizedDeclarator => match n.named_child(0) {
            Some(d) => fn_decl_under_pointer(d, depth),
            None => None,
        },
        NodeKind::FunctionDeclarator => if is_function_pointer_declarator(n) {
            None
        } else {
            Some((n, depth))
        },
        _ => None,
    }
}

/// The name that a declarator declares, and whether it declares a pointer or
/// a reference.
pub open spec fn declared(src: Seq<char>, n: NodeV) -> (Seq<char>, bool)
    decreases n,
{
    if n.kind == NodeKind::PointerDeclarator || n.kind == NodeKind::ReferenceDeclarator {
        match child_field(n, FieldName::Declarator) {
            Some(d) => {
                proof {
                    field_from_smaller(n, FieldName::Declarator, 0);
                }
                (declared(src, d).0, true)
            },
            None => (Seq::empty(), true),
        }
    } else if n.kind == NodeKind::QualifiedIdentifier || n.kind == NodeKind::DestructorName {
        (normal_name(text_of(src, n)), false)
    } else if n.kind == NodeKind::FunctionDeclarator || n.kind == NodeKind::ArrayDeclarator {
        match child_field(n, FieldName::Declarator) {
            Some(d) => {
                proof {
                    field_from_smaller(n, FieldName::Declarator, 0);
                }
                declared(src, d)
            },
            None => (Seq::empty(), false),
        }
    } else if n.kind == NodeKind::ParenthesizedDeclarator {
        match named_child(n, 0) {
            Some(d) => {
                proof {
                    named_from_smaller(n, 0, 0);
                }
                declared(src, d)
            },
            None => (Seq::empty(), false),
        }
    } else {
        (text_of(src, n), false)
    }
}

pub fn parse_declarator_name(src: &Vec<char>, n: &SyntaxNode) -> (r: (String, bool))
    ensures
        (r.0@, r.1) == declared(src@, n@),
    decreases n@,
{
    match n.kind {
        NodeKind::PointerDeclarator | NodeKind::ReferenceDeclarator => {
            match n.child_by_field(FieldName::Declarator) {
                Some(d) => {
                    let (name, p) = parse_declarator_name(src, d);
                    (name, true)
                },
                None => {
                    let r = String::new();
                    assert(r@ =~= Seq::empty());
                    (r, true)
                },
            }
        },
        NodeKind::QualifiedIdentifier | NodeKind::DestructorName => {
            let t = node_text(src, n);
            (normalize_qualified(t.as_str()), false)
        },
        NodeKind::FunctionDeclarator | NodeKind::ArrayDeclarator => {
            match n.child_by_field(FieldName::Declarator) {
                Some(d) => parse_declarator_name(src, d),
                None => {
                    let r = String::new();
                    assert(r@ =~= Seq::empty());
                    (r, false)
                },
            }
        },
        NodeKind::ParenthesizedDeclarator => match n.named_child(0) {
            Some(d) => parse_declarator_name(src, d),
            None => {
                let r = String::new();
                assert(r@ =~= Seq::empty());
                (r, false)
            },
        },
        _ => (node_text(src, n), false),
    }
}

/// What stands under the pointer of a parenthesized pointer declarator.
pub open spec fn under_pointer(n: NodeV) -> Option<NodeV> {
    match child_field(n, FieldName::Declarator) {
        Some(d) => {
            let inner = if d.kind == NodeKind::ParenthesizedDeclarator {
                named_child(d, 0)
            } else {
                Some(d)
            };
            match inner {
                Some(p) => if p.kind == NodeKind::PointerDeclarator {
                    child_field(p, FieldName::Declarator)
                } else {
                    None
                },
                None => None,
            }
        },
        None => None,
    }
}

pub proof fn under_pointer_smaller(n: NodeV)
    ensures
        under_pointer(n) is Some ==> decreases_to!(n => under_pointer(n)->0),
{
    field_from_smaller(n, FieldName::Declarator, 0);
    match child_field(n, FieldName::Declarator) {
        Some(d) => {
            named_from_smaller(d, 0, 0);
            field_from_smaller(d, FieldName::Declarator, 0);
            match named_child(d, 0) {
                Some(p) => {
                    field_from_smaller(p, FieldName::Declarator, 0);
                },
                None => {},
            }
        },
        None => {},
    }
}

/// The type that a declarator makes of a type.
pub open spec fn declared_shape(n: NodeV, base: DescV) -> DescV
    decreases n,
{
    if n.kind == NodeKind::PointerDeclarator {
        match child_field(n, FieldName::Declarator) {
            Some(d) => {
                proof {
                    field_from_smaller(n, FieldName::Declarator, 0);
                }
                DescV::Ptr(Box::new(declared_shape(d, base)))
            },
            None => DescV::Ptr(Box::new(base)),
        }
    } else if n.kind == NodeKind::ArrayDeclarator {
        match child_field(n, FieldName::Declarator) {
            Some(d) => {
                proof {
                    field_from_smaller(n, FieldName::Declarator, 0);
                }
                DescV::Array { elem: Box::new(declared_shape(d, base)), size: None }
            },
            None => DescV::Array { elem: Box::new(base), size: None },
        }
    } else if n.kind == NodeKind::FunctionDeclarator {
        match under_pointer(n) {
            Some(under) => {
                proof {
                    under_pointer_smaller(n);
                }
                DescV::Ptr(
                    Box::new(
                        DescV::FnPtr {
                            ret: Box::new(declared_shape(under, base)),
                            params: Seq::empty(),
                        },
                    ),
                )
            },
            None => match child_field(n, FieldName::Declarator) {
                Some(d) => {
                    proof {
                        field_from_smaller(n, FieldName::Declarator, 0);
                    }
                    DescV::FnPtr {
                        ret: Box::new(declared_shape(d, base)),
                        params: Seq::empty(),
                    }
                },
                None => DescV::FnPtr { ret: Box::new(base), params: Seq::empty() },
            },
        }
    } else if n.kind == NodeKind::ParenthesizedDeclarator {
        match named_child(n, 0) {
            Some(d) => {
                proof {
                    named_from_smaller(n, 0, 0);
                }
                declared_shape(d, base)
            },
            None => base,
        }
    } else {
        base
    }
}

fn find_under_pointer(n: &SyntaxNode) -> (r: Option<&SyntaxNode>)
    ensures
        match r {
            Some(u) => under_pointer(n@) == Some(u@) && decreases_to!(n@ => u@),
            None => under_pointer(n@) is None,
        },
{
    proof {
        under_pointer_smaller(n@);
    }
    match n.child_by_field(FieldName::Declarator) {
        Some(d) => {
            let inner = if d.kind == NodeKind::ParenthesizedDeclarator {
                d.named_child(0)
            } else {
                Some(d)
            };
            match inner {
                Some(p) => if p.kind == NodeKind::PointerDeclarator {
                    p.child_by_field(FieldName::Declarator)
                } else {
                    None
                },
                None => None,
            }
        },
        None => None,
    }
}

fn pointer_to_fn(ret: TypeDesc) -> (r: TypeDesc)
    ensures
        r@ == (DescV::FnPtr { ret: Box::new(ret@), params: Seq::empty() }),
{
    let params: Vec<TypeDesc> = Vec::new();
    proof {
        params_view_index(params@);
        assert(params_view(params@) =~= Seq::empty());
    }
    TypeDesc::FnPtr { ret: Box::new(ret), params }
}

pub fn walk_declarator_shape(n: &SyntaxNode, base: TypeDesc) -> (r: TypeDesc)
    ensures
        r@ == declared_shape(n@, base@),
    decreases n@,
{
    match n.kind {
        NodeKind::PointerDeclarator => match n.child_by_field(FieldName::Declarator) {
            Some(d) => TypeDesc::Ptr(Box::new(walk_declarator_shape(d, base))),
            None => TypeDesc::Ptr(Box::new(base)),
        },
        NodeKind::ArrayDeclarator => match n.child_by_field(FieldName::Declarator) {
            Some(d) => TypeDesc::Array {
                elem: Box::new(walk_declarator_shape(d, base)),
                size: None,
            },
            None => TypeDesc::Array { elem: Box::new(base), size: None },
        },
        NodeKind::FunctionDeclarator => match find_under_pointer(n) {
            Some(under) => TypeDesc::Ptr(
                Box::new(pointer_to_fn(walk_declarator_shape(under, base))),
            ),
            None => match n.child_by_field(FieldName::Declarator) {
                Some(d) => pointer_to_fn(walk_declarator_shape(d, base)),
                None => pointer_to_fn(base),
            },
        },
        NodeKind::ParenthesizedDeclarator => match n.named_child(0) {
            Some(d) => walk_declarator_shape(d, base),
            None => base,
        },
        _ => base,
    }
}

/// Whether one of the children from `i` on makes a declaration `static`.
pub open spec fn static_from(n: NodeV, i: int) -> bool
    decreases n.children.len() - i,
{
    if i < 0 || i >= n.children.len() {
        false
    } else {
        (n.children[i].kind == NodeKind::StorageClassSpecifier && child_kind(
            n.children[i],
            NodeKind::StaticWord,
        ) is Some) || static_from(n, i + 1)
    }
}

pub fn declaration_is_static(n: &SyntaxNode) -> (r: bool)
    ensures
        r == static_from(n@, 0),
{
    let mut i: usize = 0;
    while i < n.children.len()
        invariant
            i <= n@.children.len(),
            static_from(n@, i as int) == static_from(n@, 0),
        decreases n@.children.len() - i,
    {
        if n.children[i].kind == NodeKind::StorageClassSpecifier && n.children[i].child_by_kind(
            NodeKind::StaticWord,
        ).is_some() {
            return true;
        }
        i = i + 1;
    }
    false
}

/// The last of the first `k` children that is the value of an initializer.
pub open spec fn pair_value(n: NodeV, k: int) -> Option<NodeV>
    decreases k,
{
    if k <= 0 || k > n.children.len() {
        None
    } else if n.children[k - 1].named && n.children[k - 1].kind != NodeKind::FieldDesignator {
        Some(n.children[k - 1])
    } else {
        pair_value(n, k - 1)
    }
}

pub proof fn pair_value_smaller(n: NodeV, k: int)
    ensures
        pair_value(n, k) is Some ==> decreases_to!(n => pair_value(n, k)->0),
    decreases k,
{
    if 0 < k <= n.children.len() && !(n.children[k - 1].named && n.children[k - 1].kind
        != NodeKind::FieldDesignator) {
        pair_value_smaller(n, k - 1);
    }
}

pub fn init_pair_value_node(n: &SyntaxNode) -> (r: Option<&SyntaxNode>)
    ensures
        match r {
            Some(v) => pair_value(n@, n@.children.len() as int) == Some(v@) && decreases_to!(
                n@ => v@),
            None => pair_value(n@, n@.children.len() as int) is None,
        },
{
    let mut k: usize = n.children.len();
    while k > 0
        invariant
            k <= n@.children.len(),
            pair_value(n@, k as int) == pair_value(n@, n@.children.len() as int),
        decreases k,
    {
        if n.children[k - 1].named && n.children[k - 1].kind != NodeKind::FieldDesignator {
            proof {
                pair_value_smaller(n@, n@.children.len() as int);
            }
            return Some(&n.children[k - 1]);
        }
        k = k - 1;
    }
    None
}

/// Whether a node is an initializer with a designator.
pub open spec fn is_designated(n: NodeV) -> bool {
    n.kind == NodeKind::InitializerPair || n.kind == NodeKind::DesignatedInitializer
}

/// Whether one of the initializers from `i` on names a field.
pub open spec fn names_field_from(n: NodeV, i: int) -> bool
    decreases n.children.len() - i,
{
    if i < 0 || i >= n.children.len() {
        false
    } else {
        (is_designated(n.children[i]) && child_kind(
            n.children[i],
            NodeKind::FieldDesignator,
        ) is Some) || names_field_from(n, i + 1)
    }
}

pub fn list_has_field_designators(n: &SyntaxNode) -> (r: bool)
    ensures
        r == names_field_from(n@, 0),
{
    let mut i: usize = 0;
    while i < n.children.len()
        invariant
            i <= n@.children.len(),
            names_field_from(n@, i as int) == names_field_from(n@, 0),
        decreases n@.children.len() - i,
    {
        let c = &n.children[i];
        if (c.kind == NodeKind::InitializerPair || c.kind == NodeKind::DesignatedInitializer)
            && c.child_by_kind(NodeKind::FieldDesignator).is_some() {
            return true;
        }
        i = i + 1;
    }
    false
}

/// The operator of a pointer expression.
pub open spec fn pointer_op(src: Seq<char>, n: NodeV) -> Option<Seq<char>> {
    if n.kind != NodeKind::PointerExpression {
        None
    } else {
        match child_field(n, FieldName::Operator) {
            Some(o) => Some(text_of(src, o)),
            None => if n.children.len() > 0 {
                Some(text_of(src, n.children[0]))
            } else {
                None
            },
        }
    }
}

/// Whether a pointer expression has an operator.
pub fn has_pointer_op(src: &Vec<char>, n: &SyntaxNode, op: &str) -> (r: bool)
    ensures
        r == (pointer_op(src@, n@) == Some(op@)),
{
    if n.kind != NodeKind::PointerExpression {
        return false;
    }
    match n.child_by_field(FieldName::Operator) {
        Some(o) => {
            let t = node_text(src, o);
            str_eq(t.as_str(), op)
        },
        None => {
            if n.children.len() > 0 {
                let t = node_text(src, &n.children[0]);
                str_eq(t.as_str(), op)
            } else {
                false
            }
        },
    }
}

/// The operand of a pointer expression.
pub open spec fn pointer_operand(n: NodeV) -> Option<NodeV> {
    if n.kind != NodeKind::PointerExpression {
        None
    } else {
        match child_field(n, FieldName::Argument) {
            Some(a) => Some(a),
            None => named_child(n, 0),
        }
    }
}

pub proof fn pointer_operand_smaller(n: NodeV)
    ensures
        pointer_operand(n) is Some ==> decreases_to!(n => pointer_operand(n)->0),
{
    field_from_smaller(n, FieldName::Argument, 0);
    named_from_smaller(n, 0, 0);
}

pub fn pointer_arg(n: &SyntaxNode) -> (r: Option<&SyntaxNode>)
    ensures
        match r {
            Some(a) => pointer_operand(n@) == Some(a@) && decreases_to!(n@ => a@),
            None => pointer_operand(n@) is None,
        },
{
    if n.kind != NodeKind::PointerExpression {
        return None;
    }
    match n.child_by_field(FieldName::Argument) {
        Some(a) => Some(a),
        None => n.named_child(0),
    }
}

/// What a cast is of.
pub open spec fn cast_operand(n: NodeV) -> Option<NodeV> {
    match child_field(n, FieldName::Expression) {
        Some(e) => Some(e),
        None => named_child(n, 1),
    }
}

pub proof fn cast_operand_smaller(n: NodeV)
    ensures
        cast_operand(n) is Some ==> decreases_to!(n => cast_operand(n)->0),
{
    field_from_smaller(n, FieldName::Expression, 0);
    named_from_smaller(n, 1, 0);
}

pub fn cast_arg(n: &SyntaxNode) -> (r: Option<&SyntaxNode>)
    ensures
        match r {
            Some(a) => cast_operand(n@) == Some(a@) && decreases_to!(n@ => a@),
            None => cast_operand(n@) is None,
        },
{
    match n.child_by_field(FieldName::Expression) {
        Some(e) => Some(e),
        None => n.named_child(1),
    }
}

/// The name of the function that is called directly.
pub open spec fn called_name(src: Seq<char>, n: NodeV) -> Option<Seq<char>>
    decreases n,
{
    match child_field(n, FieldName::Function) {
        Some(f) => {
            let func = peeled(f);
            if func.kind == NodeKind::Identifier {
                Some(text_of(src, func))
            } else if func.kind == NodeKind::PointerExpression || func.kind
                == NodeKind::ParenthesizedExpression {
                match named_child(func, 0) {
                    Some(inner) => {
                        proof {
                            field_from_smaller(n, FieldName::Function, 0);
                            peeled_not_larger(f);
                            named_from_smaller(func, 0, 0);
                        }
                        called_name(src, inner)
                    },
                    None => None,
                }
            } else {
                None
            }
        },
        None => None,
    }
}

pub fn resolve_direct_call_name(src: &Vec<char>, n: &SyntaxNode) -> (r: Option<String>)
    ensures
        opt_text(r) == called_name(src@, n@),
    decreases n@,
{
    match n.child_by_field(FieldName::Function) {
        Some(f) => {
            let func = peel_expression(f);
            proof {
                peeled_not_larger(f@);
            }
            match func.kind {
                NodeKind::Identifier => Some(node_text(src, func)),
                NodeKind::PointerExpression | NodeKind::ParenthesizedExpression => {
                    match func.named_child(0) {
                        Some(inner) => resolve_direct_call_name(src, inner),
                        None => None,
                    }
                },
                _ => None,
            }
        },
        None => None,
    }
}

/// The fields of a chain of field accesses, the outermost first, and what
/// they start from. None where a part of an access is missing.
pub open spec fn access_chain(src: Seq<char>, n: NodeV) -> Option<
    (Seq<Seq<char>>, NodeV),
>
    decreases n,
{
    if n.kind == NodeKind::FieldExpression {
        match (child_field(n, FieldName::Field), child_field(n, FieldName::Argument)) {
            (Some(f), Some(a)) => {
                proof {
                    field_from_smaller(n, FieldName::Argument, 0);
                }
                match access_chain(src, a) {
                    Some((names, base)) => Some((names.push(text_of(src, f)), base)),
                    None => None,
                }
            },
            _ => None,
        }
    } else {
        Some((Seq::empty(), n))
    }
}

/// The names of a chain of field accesses, the innermost first, and what they
/// start from.
pub fn find_chain<'a>(src: &Vec<char>, n: &'a SyntaxNode) -> (r: Option<
    (Vec<String>, &'a SyntaxNode),
>)
    ensures
        match r {
            Some((names, base)) => access_chain(src@, n@) == Some((names_view(names@), base@)),
            None => access_chain(src@, n@) is None,
        },
    decreases n@,
{
    if n.kind == NodeKind::FieldExpression {
        match n.child_by_field(FieldName::Field) {
            Some(f) => match n.child_by_field(FieldName::Argument) {
                Some(a) => match find_chain(src, a) {
                    Some((names, base)) => {
                        let mut names = names;
                        push_name(&mut names, node_text(src, f));
                        Some((names, base))
                    },
                    None => None,
                },
                None => None,
            },
            None => None,
        }
    } else {
        let names: Vec<String> = Vec::new();
        assert(names_view(names@) =~= Seq::empty());
        Some((names, n))
    }
}

/// How a chain of field accesses is written, from what it starts from on.
pub open spec fn chain_text(src: Seq<char>, n: NodeV) -> Seq<char>
    decreases n,
{
    if n.kind == NodeKind::FieldExpression {
        match child_field(n, FieldName::Argument) {
            Some(a) => {
                proof {
                    field_from_smaller(n, FieldName::Argument, 0);
                }
                match child_field(n, FieldName::Field) {
                    Some(f) => chain_text(src, a) + "->"@ + text_of(src, f),
                    None => chain_text(src, a),
                }
            },
            None => text_of(src, n),
        }
    } else {
        text_of(src, n)
    }
}

pub fn field_callee_text(src: &Vec<char>, n: &SyntaxNode) -> (r: String)
    ensures
        r@ == chain_text(src@, n@),
    decreases n@,
{
    if n.kind == NodeKind::FieldExpression {
        match n.child_by_field(FieldName::Argument) {
            Some(a) => {
                let base = field_callee_text(src, a);
                match n.child_by_field(FieldName::Field) {
                    Some(f) => {
                        let t = node_text(src, f);
                        cat3(base.as_str(), "->", t.as_str())
                    },
                    None => base,
                }
            },
            None => node_text(src, n),
        }
    } else {
        node_text(src, n)
    }
}

} // verus!
