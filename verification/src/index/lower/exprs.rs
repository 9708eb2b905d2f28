//! What expressions mean: the variables, functions, classes and fields that
//! they name, and the values that they move.

use crate::index::lower::nodes::{
    access_chain, called_name, cast_arg, cast_operand, cast_operand_smaller, chain_text,
    field_callee_text, find_chain, has_pointer_op, peel_expression, peeled, peeled_not_larger,
    pointer_arg, pointer_op, pointer_operand, pointer_operand_smaller, resolve_direct_call_name,
};
use crate::index::lower::state::{clone_opt, opt_view, Lower, LowerV, PendV, PendingFnRef};
use crate::index::names::{normal_name, normalize_qualified, strip_template_args, without_args};
use crate::index::syntax::{
    child_field, children_viewed, field_from_smaller, named_child, named_from_smaller, node_text,
    text_of, FieldName, NodeKind, NodeV, SyntaxNode,
};
use crate::ir::flow::{FlowConstraint, FlowV};
use crate::ir::ids::{FieldId, FnId, TypeId, VarId};
use crate::ir::types::{clone_desc, desc_view, DescV, FieldV, TableV, TypeDesc, TypeKind};
use crate::text::{cat2, cat3, names_view, owned};
use vstd::prelude::*;

verus! {

broadcast use children_viewed;

/// The class that a value of a type, or of a pointer to it, is of.
pub open spec fn class_of(d: Option<DescV>) -> Option<Seq<char>> {
    match d {
        Some(DescV::Struct { name, fields }) => Some(name),
        Some(DescV::Ptr(inner)) => match *inner {
            DescV::Struct { name, fields } => Some(name),
            _ => None,
        },
        _ => None,
    }
}

/// The field of a type that has a name.
pub open spec fn field_called(types: TableV, t: TypeId, name: Seq<char>) -> Option<
    (FieldId, FieldV),
> {
    match types.field_position(t, name, 0) {
        Some(k) => match types.field(t, FieldId(k as u32)) {
            Some(f) => Some((FieldId(k as u32), f)),
            None => None,
        },
        None => None,
    }
}

/// The first child from `i` on that can name the class of a `new` expression.
pub open spec fn new_class_node(n: NodeV, i: int) -> Option<NodeV>
    decreases n.children.len() - i,
{
    if i < 0 || i >= n.children.len() {
        None
    } else if n.children[i].kind == NodeKind::QualifiedIdentifier || n.children[i].kind
        == NodeKind::TypeIdentifier || n.children[i].kind == NodeKind::TemplateType {
        Some(n.children[i])
    } else {
        new_class_node(n, i + 1)
    }
}

/// Fields with their names.
pub open spec fn path_view(s: Seq<(FieldId, String)>) -> Seq<(FieldId, Seq<char>)> {
    Seq::new(s.len(), |i: int| (s[i].0, s[i].1@))
}

/// A move that there may be none of.
pub open spec fn opt_flow(f: Option<FlowConstraint>) -> Option<FlowV> {
    match f {
        Some(x) => Some(x@),
        None => None,
    }
}

impl LowerV {
    /// The variable whose storage an expression denotes, or is part of.
    pub open spec fn lvalue(self, n: NodeV) -> Option<VarId>
        decreases n,
    {
        if n.kind == NodeKind::Identifier {
            self.lookup(text_of(self.src, n))
        } else if n.kind == NodeKind::PointerExpression {
            match pointer_operand(n) {
                Some(a) => {
                    proof {
                        pointer_operand_smaller(n);
                    }
                    self.lvalue(a)
                },
                None => None,
            }
        } else if n.kind == NodeKind::FieldExpression || n.kind == NodeKind::SubscriptExpression {
            match child_field(n, FieldName::Argument) {
                Some(a) => {
                    proof {
                        field_from_smaller(n, FieldName::Argument, 0);
                    }
                    self.lvalue(a)
                },
                None => None,
            }
        } else if n.kind == NodeKind::ParenthesizedExpression {
            match named_child(n, 0) {
                Some(a) => {
                    proof {
                        named_from_smaller(n, 0, 0);
                    }
                    self.lvalue(a)
                },
                None => None,
            }
        } else if n.kind == NodeKind::CastExpression {
            match cast_operand(n) {
                Some(a) => {
                    proof {
                        cast_operand_smaller(n);
                    }
                    self.lvalue(a)
                },
                None => None,
            }
        } else {
            None
        }
    }

    /// The variable that the value of an expression comes from.
    pub open spec fn value_var(self, n: NodeV) -> Option<VarId>
        decreases n,
    {
        if n.kind == NodeKind::Identifier {
            self.lookup(text_of(self.src, n))
        } else if n.kind == NodeKind::PointerExpression {
            match pointer_operand(n) {
                Some(a) => {
                    proof {
                        pointer_operand_smaller(n);
                    }
                    if pointer_op(self.src, n) == Some("&"@) {
                        self.lvalue(a)
                    } else {
                        self.value_var(a)
                    }
                },
                None => None,
            }
        } else if n.kind == NodeKind::FieldExpression || n.kind == NodeKind::SubscriptExpression {
            match child_field(n, FieldName::Argument) {
                Some(a) => {
                    proof {
                        field_from_smaller(n, FieldName::Argument, 0);
                    }
                    self.value_var(a)
                },
                None => None,
            }
        } else if n.kind == NodeKind::ParenthesizedExpression {
            match named_child(n, 0) {
                Some(a) => {
                    proof {
                        named_from_smaller(n, 0, 0);
                    }
                    self.value_var(a)
                },
                None => None,
            }
        } else {
            None
        }
    }

    /// The function that an expression names.
    pub open spec fn fn_named_by(self, n: NodeV) -> Option<FnId> {
        if n.kind == NodeKind::Identifier {
            self.named_fn(text_of(self.src, n))
        } else {
            None
        }
    }

    /// The function that an expression names, behind any operators.
    pub open spec fn fn_argument(self, n: NodeV) -> Option<FnId>
        decreases n,
    {
        match self.fn_named_by(n) {
            Some(f) => Some(f),
            None => if n.kind == NodeKind::PointerExpression {
                match pointer_operand(n) {
                    Some(a) => {
                        proof {
                            pointer_operand_smaller(n);
                        }
                        self.fn_argument(a)
                    },
                    None => None,
                }
            } else {
                None
            },
        }
    }

    /// The class of a variable.
    pub open spec fn var_class(self, v: VarId) -> Option<Seq<char>> {
        match self.p.symbols.variable(v) {
            Some(x) => class_of(self.p.types.desc(x.type_id)),
            None => None,
        }
    }

    /// The class that a `new` expression makes.
    pub open spec fn new_class(self, n: NodeV) -> Option<Seq<char>> {
        match new_class_node(n, 0) {
            Some(c) => Some(self.class_name(text_of(self.src, c))),
            None => None,
        }
    }

    /// The class of an expression, as far as declared types tell.
    pub open spec fn static_class(self, n: NodeV) -> Option<Seq<char>>
        decreases n,
    {
        let e = peeled(n);
        if e.kind == NodeKind::This {
            self.class
        } else if e.kind == NodeKind::Identifier {
            match self.lookup(text_of(self.src, e)) {
                Some(v) => self.var_class(v),
                None => None,
            }
        } else if e.kind == NodeKind::PointerExpression {
            match named_child(e, 0) {
                Some(a) => {
                    proof {
                        peeled_not_larger(n);
                        named_from_smaller(e, 0, 0);
                    }
                    if pointer_op(self.src, e) == Some("*"@) {
                        self.static_class(a)
                    } else {
                        None
                    }
                },
                None => None,
            }
        } else if e.kind == NodeKind::FieldExpression {
            match (child_field(e, FieldName::Argument), child_field(e, FieldName::Field)) {
                (Some(base), Some(field)) => {
                    proof {
                        peeled_not_larger(n);
                        field_from_smaller(e, FieldName::Argument, 0);
                    }
                    match self.static_class(base) {
                        Some(cls) => match self.tagged(cls) {
                            Some(t) => match field_called(
                                self.p.types,
                                t,
                                normal_name(text_of(self.src, field)),
                            ) {
                                Some((id, f)) => class_of(self.p.types.desc(f.type_id)),
                                None => None,
                            },
                            None => None,
                        },
                        None => None,
                    }
                },
                _ => None,
            }
        } else if e.kind == NodeKind::CastExpression {
            match child_field(e, FieldName::Type) {
                Some(t) => {
                    let cls = self.class_name(text_of(self.src, t));
                    if self.tagged(cls) is Some {
                        Some(cls)
                    } else {
                        None
                    }
                },
                None => None,
            }
        } else if e.kind == NodeKind::NewExpression {
            self.new_class(e)
        } else {
            None
        }
    }

    /// What is called: how it is written, whether it is a function for sure,
    /// and the variable that holds it.
    pub open spec fn callee(self, n: NodeV) -> (Seq<char>, bool, Option<VarId>)
        decreases n,
    {
        let e = peeled(n);
        let text = text_of(self.src, e);
        if e.kind == NodeKind::Identifier {
            match self.lookup(text) {
                Some(v) => (text, false, Some(v)),
                None => (text, self.named_fn(text) is Some, None),
            }
        } else if e.kind == NodeKind::QualifiedIdentifier {
            (normal_name(text), false, None)
        } else if e.kind == NodeKind::TemplateFunction {
            let name = without_args(normal_name(text));
            match self.lookup(name) {
                Some(v) => (name, false, Some(v)),
                None => (name, true, None),
            }
        } else if e.kind == NodeKind::PointerExpression || e.kind
            == NodeKind::ParenthesizedExpression {
            match named_child(e, 0) {
                Some(a) => {
                    proof {
                        peeled_not_larger(n);
                        named_from_smaller(e, 0, 0);
                    }
                    self.callee(a)
                },
                None => ("<indirect>"@, false, None),
            }
        } else if e.kind == NodeKind::FieldExpression {
            let field = match child_field(e, FieldName::Field) {
                Some(f) => text_of(self.src, f),
                None => "field"@,
            };
            match child_field(e, FieldName::Argument) {
                Some(a) => match self.lvalue(a) {
                    Some(v) => (text_of(self.src, a) + "->"@ + field, false, Some(v)),
                    None => (field, false, None),
                },
                None => (field, false, None),
            }
        } else if e.kind == NodeKind::SubscriptExpression {
            match child_field(e, FieldName::Argument) {
                Some(a) => match self.lvalue(a) {
                    Some(v) => (text_of(self.src, a) + "[...]"@, false, Some(v)),
                    None => ("<indirect>"@, false, None),
                },
                None => ("<indirect>"@, false, None),
            }
        } else {
            (text, false, None)
        }
    }

    /// The structure behind a type, through at most `k` pointers and arrays.
    pub open spec fn struct_behind(self, t: TypeId, k: nat) -> (LowerV, TypeId)
        decreases k,
    {
        if k == 0 {
            (self, t)
        } else {
            match self.p.types.desc(t) {
                Some(DescV::Ptr(inner)) => self.struct_behind(
                    self.p.types.resolved(*inner),
                    (k - 1) as nat,
                ),
                Some(DescV::Array { elem, size }) => {
                    let types = self.p.types.interned(*elem);
                    self.with_types(types).struct_behind(types.id_of(*elem), (k - 1) as nat)
                },
                _ => (self, t),
            }
        }
    }

    /// The structure behind a variable.
    pub open spec fn struct_of_var(self, v: VarId) -> (LowerV, Option<TypeId>) {
        match self.p.symbols.variable(v) {
            Some(x) => {
                let (s, t) = self.struct_behind(x.type_id, 4);
                (s, Some(t))
            },
            None => (self, None),
        }
    }

    /// What a pointer points to; a type that is no pointer stays as it is.
    pub open spec fn pointee(self, t: TypeId) -> (LowerV, TypeId) {
        match self.p.types.desc(t) {
            Some(DescV::Ptr(inner)) => {
                let types = self.p.types.interned(*inner);
                (self.with_types(types), types.id_of(*inner))
            },
            _ => (self, t),
        }
    }

    /// The fields that the names from `i` on lead to, from a type on.
    pub open spec fn fields_from(
        self,
        t: TypeId,
        names: Seq<Seq<char>>,
        path: Seq<(FieldId, Seq<char>)>,
        i: int,
    ) -> (LowerV, Option<Seq<(FieldId, Seq<char>)>>)
        decreases names.len() - i,
    {
        if i < 0 || i >= names.len() {
            (self, Some(path))
        } else {
            match field_called(self.p.types, t, names[i]) {
                Some((id, f)) => {
                    let (s, u) = self.pointee(f.type_id);
                    s.fields_from(u, names, path.push((id, names[i])), i + 1)
                },
                None => (self, None),
            }
        }
    }

    /// The variable that a chain of field accesses starts from, and the
    /// fields.
    pub open spec fn field_path(self, n: NodeV) -> (
        LowerV,
        Option<(VarId, Seq<(FieldId, Seq<char>)>)>,
    ) {
        match access_chain(self.src, peeled(n)) {
            Some((names, start)) => match self.lvalue(start) {
                Some(base) => match self.struct_of_var(base) {
                    (s, Some(t)) => match s.fields_from(t, names, Seq::empty(), 0) {
                        (u, Some(path)) => (u, Some((base, path))),
                        (u, None) => (u, None),
                    },
                    (s, None) => (s, None),
                },
                None => (self, None),
            },
            None => (self, None),
        }
    }

    /// With the addresses of the first `k` fields of a path, and the last
    /// address.
    pub open spec fn with_path(
        self,
        n: NodeV,
        base: VarId,
        path: Seq<(FieldId, Seq<char>)>,
        k: int,
    ) -> (LowerV, VarId)
        decreases k,
    {
        if k <= 0 {
            (self, base)
        } else {
            let (s, cur) = self.with_path(n, base, path, k - 1);
            (s.with_field_temp(n, cur, path[k - 1].0, path[k - 1].1), s.next_var())
        }
    }

    /// The address of a field, where the expression is one.
    pub open spec fn field_address(self, n: NodeV) -> (LowerV, Option<VarId>) {
        let e = peeled(n);
        if e.kind != NodeKind::FieldExpression {
            (self, None)
        } else {
            match self.field_path(e) {
                (s, Some((base, path))) => {
                    let (t, v) = s.with_path(e, base, path, path.len() as int);
                    (t, Some(v))
                },
                (s, None) => (s, None),
            }
        }
    }

    /// The variable that is stored where an expression is assigned through a
    /// pointer.
    pub open spec fn store_source(self, n: NodeV) -> (LowerV, Option<VarId>) {
        if n.kind == NodeKind::PointerExpression {
            match pointer_operand(n) {
                Some(a) => if pointer_op(self.src, n) == Some("&"@) {
                    match self.field_address(a) {
                        (s, Some(v)) => (s, Some(v)),
                        (s, None) => (s, s.lvalue(a)),
                    }
                } else {
                    (self, None)
                },
                None => (self, None),
            }
        } else if n.kind == NodeKind::Identifier {
            (self, self.lvalue(n))
        } else {
            (self, self.value_var(n))
        }
    }

    /// The move that an expression makes into a variable, where there is one.
    pub open spec fn moved_into(self, n: NodeV, dst: VarId) -> (LowerV, Option<FlowV>)
        decreases n,
    {
        if n.kind == NodeKind::Identifier {
            let name = text_of(self.src, n);
            match self.named_fn(name) {
                Some(callee) => (self, Some(FlowV::AddrOfFn { dst, callee })),
                None => match self.lookup(name) {
                    Some(src) => (self, Some(FlowV::Copy { dst, src })),
                    None => (self.with_pending(PendV::RhsIdent { dst, name }), None),
                },
            }
        } else if n.kind == NodeKind::PointerExpression {
            match pointer_operand(n) {
                Some(a) => if pointer_op(self.src, n) == Some("&"@) {
                    self.address_into(a, dst)
                } else if pointer_op(self.src, n) == Some("*"@) {
                    match self.lvalue(a) {
                        Some(src) => (self, Some(FlowV::Load { dst, src })),
                        None => (self, None),
                    }
                } else {
                    (self, None)
                },
                None => (self, None),
            }
        } else if n.kind == NodeKind::CastExpression {
            match cast_operand(n) {
                Some(a) => {
                    proof {
                        cast_operand_smaller(n);
                    }
                    self.moved_into(a, dst)
                },
                None => (self, None),
            }
        } else if n.kind == NodeKind::ParenthesizedExpression {
            match named_child(n, 0) {
                Some(a) => {
                    proof {
                        named_from_smaller(n, 0, 0);
                    }
                    self.moved_into(a, dst)
                },
                None => (self, None),
            }
        } else if n.kind == NodeKind::CallExpression {
            match called_name(self.src, n) {
                Some(callee_name) => (self.with_flow(FlowV::CallReturn { dst, callee_name }), None),
                None => (self, None),
            }
        } else if n.kind == NodeKind::FieldExpression {
            match self.field_path(n) {
                (s, Some((base, path))) => if path.len() == 0 {
                    (s, None)
                } else {
                    let (t, src) = s.with_path(n, base, path, path.len() as int);
                    (t, Some(FlowV::Load { dst, src }))
                },
                (s, None) => (s, None),
            }
        } else {
            match self.value_var(n) {
                Some(src) => (self, Some(FlowV::Copy { dst, src })),
                None => (self, None),
            }
        }
    }

    /// The move that the address of an expression makes into a variable.
    pub open spec fn address_into(self, a: NodeV, dst: VarId) -> (LowerV, Option<FlowV>) {
        match self.fn_named_by(a) {
            Some(callee) => (self, Some(FlowV::AddrOfFn { dst, callee })),
            None => match self.field_address(a) {
                (s, Some(src)) => (s, Some(FlowV::Copy { dst, src })),
                (s, None) => match s.lvalue(a) {
                    Some(src) => (s, Some(FlowV::AddrOfVar { dst, src })),
                    None => if a.kind == NodeKind::Identifier {
                        (
                            s.with_pending(PendV::AddrOfIdent { dst, name: text_of(self.src, a) }),
                            None,
                        )
                    } else {
                        (s, None)
                    },
                },
            },
        }
    }

    /// With the loads that lead along the fields from `i` on to what the last
    /// one holds.
    pub open spec fn with_loads(
        self,
        n: NodeV,
        path: Seq<(FieldId, Seq<char>)>,
        cur: VarId,
        t: TypeId,
        i: int,
    ) -> (LowerV, Option<VarId>)
        decreases path.len() - i,
    {
        if i < 0 || i >= path.len() {
            (self, None)
        } else {
            let gep = self.next_var();
            let s = self.with_field_temp(n, cur, path[i].0, path[i].1);
            match s.p.types.field(t, path[i].0) {
                Some(f) => if i + 1 == path.len() {
                    let (u, load) = s.with_load(n, gep, s.int_type());
                    (u, Some(load))
                } else {
                    match s.p.types.desc(f.type_id) {
                        Some(DescV::Ptr(inner)) => {
                            let (u, load) = s.with_load(n, gep, f.type_id);
                            u.with_loads(n, path, load, u.p.types.resolved(*inner), i + 1)
                        },
                        _ => s.with_loads(n, path, gep, f.type_id, i + 1),
                    }
                },
                None => (s, None),
            }
        }
    }

    /// With a variable for what stands at an address.
    pub open spec fn with_load(self, n: NodeV, src: VarId, t: TypeId) -> (LowerV, VarId) {
        let (s, span) = self.placed(n);
        (
            s.with_temp("_load"@, t, span).with_flow(FlowV::Load { dst: s.next_var(), src }),
            s.next_var(),
        )
    }

    /// What is called, once what it is has been loaded from its field.
    pub open spec fn loaded_callee(self, n: NodeV) -> (
        LowerV,
        (Seq<char>, bool, Option<VarId>),
    ) {
        let e = peeled(n);
        if e.kind == NodeKind::FieldExpression {
            match self.field_path(e) {
                (s, Some((base, path))) => match s.loaded_field(e, base, path) {
                    (u, Some(v)) => (u, (chain_text(self.src, e), false, Some(v))),
                    (u, None) => (u, u.callee(e)),
                },
                (s, None) => (s, s.callee(e)),
            }
        } else {
            (self, self.callee(e))
        }
    }

    /// With what the last field of a path holds.
    pub open spec fn loaded_field(
        self,
        n: NodeV,
        base: VarId,
        path: Seq<(FieldId, Seq<char>)>,
    ) -> (LowerV, Option<VarId>) {
        if path.len() == 0 {
            (self, None)
        } else {
            match self.struct_of_var(base) {
                (s, Some(t)) => s.with_loads(n, path, base, t, 0),
                (s, None) => (s, None),
            }
        }
    }
}

fn class_of_desc(d: &TypeDesc) -> (r: Option<String>)
    ensures
        opt_view(r) == class_of(Some(d@)),
{
    proof {
        reveal_with_fuel(desc_view, 3);
    }
    match d {
        TypeDesc::Struct { name, fields } => Some(name.clone()),
        TypeDesc::Ptr(inner) => match &**inner {
            TypeDesc::Struct { name, fields } => Some(name.clone()),
            _ => None,
        },
        _ => None,
    }
}

impl Lower {
    /// The variable whose storage an expression denotes, or is part of.
    pub fn resolve_lvalue_var(&self, n: &SyntaxNode) -> (r: Option<VarId>)
        ensures
            r == self@.lvalue(n@),
        decreases n@,
    {
        match n.kind {
            NodeKind::Identifier => {
                let name = node_text(&self.source, n);
                self.lookup_var(name.as_str())
            },
            NodeKind::PointerExpression => match pointer_arg(n) {
                Some(a) => self.resolve_lvalue_var(a),
                None => None,
            },
            NodeKind::FieldExpression | NodeKind::SubscriptExpression => match n.child_by_field(
                FieldName::Argument,
            ) {
                Some(a) => self.resolve_lvalue_var(a),
                None => None,
            },
            NodeKind::ParenthesizedExpression => match n.named_child(0) {
                Some(a) => self.resolve_lvalue_var(a),
                None => None,
            },
            NodeKind::CastExpression => match cast_arg(n) {
                Some(a) => self.resolve_lvalue_var(a),
                None => None,
            },
            _ => None,
        }
    }

    /// The variable that the value of an expression comes from.
    pub fn resolve_expr_var(&self, n: &SyntaxNode) -> (r: Option<VarId>)
        ensures
            r == self@.value_var(n@),
        decreases n@,
    {
        match n.kind {
            NodeKind::Identifier => {
                let name = node_text(&self.source, n);
                self.lookup_var(name.as_str())
            },
            NodeKind::PointerExpression => match pointer_arg(n) {
                Some(a) => if has_pointer_op(&self.source, n, "&") {
                    self.resolve_lvalue_var(a)
                } else {
                    self.resolve_expr_var(a)
                },
                None => None,
            },
            NodeKind::FieldExpression | NodeKind::SubscriptExpression => match n.child_by_field(
                FieldName::Argument,
            ) {
                Some(a) => self.resolve_expr_var(a),
                None => None,
            },
            NodeKind::ParenthesizedExpression => match n.named_child(0) {
                Some(a) => self.resolve_expr_var(a),
                None => None,
            },
            _ => None,
        }
    }

    /// The function that an expression names.
    pub fn resolve_fn_ref(&self, n: &SyntaxNode) -> (r: Option<FnId>)
        ensures
            r == self@.fn_named_by(n@),
    {
        if n.kind == NodeKind::Identifier {
            let name = node_text(&self.source, n);
            self.resolve_function_named(name.as_str())
        } else {
            None
        }
    }

    /// The function that an expression names, behind any operators.
    pub fn resolve_call_fn_arg(&self, n: &SyntaxNode) -> (r: Option<FnId>)
        ensures
            r == self@.fn_argument(n@),
        decreases n@,
    {
        if let Some(f) = self.resolve_fn_ref(n) {
            return Some(f);
        }
        if n.kind == NodeKind::PointerExpression {
            if let Some(a) = pointer_arg(n) {
                return self.resolve_call_fn_arg(a);
            }
        }
        None
    }

    /// The class of a variable.
    pub fn var_static_class(&self, v: VarId) -> (r: Option<String>)
        ensures
            opt_view(r) == self@.var_class(v),
    {
        match self.program.symbols.variable_by_id(v) {
            Some(x) => match self.program.types.get(x.type_id) {
                Some(t) => class_of_desc(&t.desc),
                None => None,
            },
            None => None,
        }
    }

    /// The class that a `new` expression makes.
    pub fn new_expression_class(&self, n: &SyntaxNode) -> (r: Option<String>)
        ensures
            opt_view(r) == self@.new_class(n@),
    {
        let mut i: usize = 0;
        while i < n.children.len()
            invariant
                i <= n@.children.len(),
                new_class_node(n@, i as int) == new_class_node(n@, 0),
            decreases n@.children.len() - i,
        {
            let c = &n.children[i];
            if c.kind == NodeKind::QualifiedIdentifier || c.kind == NodeKind::TypeIdentifier
                || c.kind == NodeKind::TemplateType {
                let text = node_text(&self.source, c);
                return Some(self.name_of_class(text.as_str()));
            }
            i = i + 1;
        }
        None
    }

    /// The field of a type that has a name.
    pub fn find_field(&self, t: TypeId, name: &str) -> (r: Option<(FieldId, TypeId)>)
        ensures
            match r {
                Some((id, u)) => field_called(self@.p.types, t, name@) matches Some((x, f)) && x
                    == id && f.type_id == u,
                None => field_called(self@.p.types, t, name@) is None,
            },
    {
        match self.program.types.field_id_by_name(t, name) {
            Some(id) => match self.program.types.field(t, id) {
                Some(f) => Some((id, f.type_id)),
                None => None,
            },
            None => None,
        }
    }

    /// The class of an expression, as far as declared types tell.
    pub fn infer_static_class(&self, n: &SyntaxNode) -> (r: Option<String>)
        ensures
            opt_view(r) == self@.static_class(n@),
        decreases n@,
    {
        let e = peel_expression(n);
        proof {
            peeled_not_larger(n@);
        }
        match e.kind {
            NodeKind::This => clone_opt(&self.class),
            NodeKind::Identifier => {
                let name = node_text(&self.source, e);
                match self.lookup_var(name.as_str()) {
                    Some(v) => self.var_static_class(v),
                    None => None,
                }
            },
            NodeKind::PointerExpression => match e.named_child(0) {
                Some(a) => if has_pointer_op(&self.source, e, "*") {
                    self.infer_static_class(a)
                } else {
                    None
                },
                None => None,
            },
            NodeKind::FieldExpression => {
                let base = match e.child_by_field(FieldName::Argument) {
                    Some(b) => b,
                    None => {
                        return None;
                    },
                };
                let field = match e.child_by_field(FieldName::Field) {
                    Some(f) => f,
                    None => {
                        return None;
                    },
                };
                let cls = match self.infer_static_class(base) {
                    Some(c) => c,
                    None => {
                        return None;
                    },
                };
                let t = match self.program.types.type_id_by_tag(cls.as_str(), TypeKind::Struct) {
                    Some(t) => t,
                    None => {
                        return None;
                    },
                };
                let text = node_text(&self.source, field);
                let name = normalize_qualified(text.as_str());
                match self.find_field(t, name.as_str()) {
                    Some((_id, u)) => match self.program.types.get(u) {
                        Some(info) => class_of_desc(&info.desc),
                        None => None,
                    },
                    None => None,
                }
            },
            NodeKind::CastExpression => match e.child_by_field(FieldName::Type) {
                Some(t) => {
                    let text = node_text(&self.source, t);
                    let cls = self.name_of_class(text.as_str());
                    if self.program.types.type_id_by_tag(
                        cls.as_str(),
                        TypeKind::Struct,
                    ).is_some() {
                        Some(cls)
                    } else {
                        None
                    }
                },
                None => None,
            },
            NodeKind::NewExpression => self.new_expression_class(e),
            _ => None,
        }
    }

    /// What is called.
    pub fn resolve_callee(&self, n: &SyntaxNode) -> (r: (String, bool, Option<VarId>))
        ensures
            (r.0@, r.1, r.2) == self@.callee(n@),
        decreases n@,
    {
        let e = peel_expression(n);
        proof {
            peeled_not_larger(n@);
        }
        match e.kind {
            NodeKind::Identifier => {
                let name = node_text(&self.source, e);
                match self.lookup_var(name.as_str()) {
                    Some(v) => (name, false, Some(v)),
                    None => {
                        let known = self.resolve_function_named(name.as_str()).is_some();
                        (name, known, None)
                    },
                }
            },
            NodeKind::QualifiedIdentifier => {
                let text = node_text(&self.source, e);
                (normalize_qualified(text.as_str()), false, None)
            },
            NodeKind::TemplateFunction => {
                let text = node_text(&self.source, e);
                let raw = normalize_qualified(text.as_str());
                let name = strip_template_args(raw.as_str());
                match self.lookup_var(name.as_str()) {
                    Some(v) => (name, false, Some(v)),
                    None => (name, true, None),
                }
            },
            NodeKind::PointerExpression | NodeKind::ParenthesizedExpression => {
                match e.named_child(0) {
                    Some(a) => self.resolve_callee(a),
                    None => (owned("<indirect>"), false, None),
                }
            },
            NodeKind::FieldExpression => {
                let field = match e.child_by_field(FieldName::Field) {
                    Some(f) => node_text(&self.source, f),
                    None => owned("field"),
                };
                match e.child_by_field(FieldName::Argument) {
                    Some(a) => match self.resolve_lvalue_var(a) {
                        Some(v) => {
                            let text = node_text(&self.source, a);
                            (cat3(text.as_str(), "->", field.as_str()), false, Some(v))
                        },
                        None => (field, false, None),
                    },
                    None => (field, false, None),
                }
            },
            NodeKind::SubscriptExpression => match e.child_by_field(FieldName::Argument) {
                Some(a) => match self.resolve_lvalue_var(a) {
                    Some(v) => {
                        let text = node_text(&self.source, a);
                        (cat2(text.as_str(), "[...]"), false, Some(v))
                    },
                    None => (owned("<indirect>"), false, None),
                },
                None => (owned("<indirect>"), false, None),
            },
            _ => (node_text(&self.source, e), false, None),
        }
    }

    fn struct_behind_type(&mut self, t: TypeId, k: u32) -> (r: TypeId)
        requires
            old(self).wf(),
        ensures
            final(self).wf(),
            (final(self)@, r) == old(self)@.struct_behind(t, k as nat),
        decreases k,
    {
        if k == 0 {
            return t;
        }
        let elem = match self.program.types.get(t) {
            Some(info) => match &info.desc {
                TypeDesc::Ptr(inner) => {
                    let u = self.program.types.resolve_type_id(inner);
                    return self.struct_behind_type(u, k - 1);
                },
                TypeDesc::Array { elem, size } => clone_desc(elem),
                _ => {
                    return t;
                },
            },
            None => {
                return t;
            },
        };
        let u = self.intern(elem);
        self.struct_behind_type(u, k - 1)
    }

    /// The structure behind a variable.
    pub fn struct_type_for_var(&mut self, v: VarId) -> (r: Option<TypeId>)
        requires
            old(self).wf(),
        ensures
            final(self).wf(),
            (final(self)@, r) == old(self)@.struct_of_var(v),
    {
        let t = match self.program.symbols.variable_by_id(v) {
            Some(x) => x.type_id,
            None => {
                return None;
            },
        };
        Some(self.struct_behind_type(t, 4))
    }

    /// What a pointer points to.
    pub fn peel_ptr_to_struct(&mut self, t: TypeId) -> (r: TypeId)
        requires
            old(self).wf(),
        ensures
            final(self).wf(),
            (final(self)@, r) == old(self)@.pointee(t),
    {
        let inner = match self.program.types.get(t) {
            Some(info) => match &info.desc {
                TypeDesc::Ptr(inner) => clone_desc(inner),
                _ => {
                    return t;
                },
            },
            None => {
                return t;
            },
        };
        self.intern(inner)
    }

    fn find_fields(&mut self, t: TypeId, names: &Vec<String>) -> (r: Option<Vec<(FieldId, String)>>)
        requires
            old(self).wf(),
        ensures
            final(self).wf(),
            final(self)@ == old(self)@.fields_from(t, names_view(names@), Seq::empty(), 0).0,
            match r {
                Some(path) => old(self)@.fields_from(t, names_view(names@), Seq::empty(), 0).1
                    == Some(path_view(path@)),
                None => old(self)@.fields_from(t, names_view(names@), Seq::empty(), 0).1 is None,
            },
    {
        let ghost goal = self@.fields_from(t, names_view(names@), Seq::empty(), 0);
        let mut path: Vec<(FieldId, String)> = Vec::new();
        let mut cur = t;
        let mut i: usize = 0;
        assert(path_view(path@) =~= Seq::empty());
        while i < names.len()
            invariant
                i <= names@.len(),
                self.wf(),
                goal == old(self)@.fields_from(t, names_view(names@), Seq::empty(), 0),
                self@.fields_from(cur, names_view(names@), path_view(path@), i as int) == goal,
            decreases names@.len() - i,
        {
            let name = &names[i];
            assert(names_view(names@)[i as int] == name@);
            match self.find_field(cur, name.as_str()) {
                Some((id, u)) => {
                    cur = self.peel_ptr_to_struct(u);
                    let ghost before = path@;
                    path.push((id, name.clone()));
                    assert(path_view(path@) =~= path_view(before).push((id, name@)));
                },
                None => {
                    return None;
                },
            }
            i = i + 1;
        }
        Some(path)
    }

    /// The variable that a chain of field accesses starts from, and the
    /// fields.
    pub fn decompose_field_path(&mut self, n: &SyntaxNode) -> (r: Option<
        (VarId, Vec<(FieldId, String)>),
    >)
        requires
            old(self).wf(),
        ensures
            final(self).wf(),
            final(self)@ == old(self)@.field_path(n@).0,
            match r {
                Some((base, path)) => old(self)@.field_path(n@).1 == Some((base, path_view(path@))),
                None => old(self)@.field_path(n@).1 is None,
            },
    {
        let e = peel_expression(n);
        let (names, start) = match find_chain(&self.source, e) {
            Some(c) => c,
            None => {
                return None;
            },
        };
        let base = match self.resolve_lvalue_var(start) {
            Some(v) => v,
            None => {
                return None;
            },
        };
        let t = match self.struct_type_for_var(base) {
            Some(t) => t,
            None => {
                return None;
            },
        };
        match self.find_fields(t, &names) {
            Some(path) => Some((base, path)),
            None => None,
        }
    }

    /// Adds the addresses of the fields of a path. The result is the last.
    pub fn address_of_path(
        &mut self,
        n: &SyntaxNode,
        base: VarId,
        path: &Vec<(FieldId, String)>,
    ) -> (r: VarId)
        requires
            old(self).wf(),
        ensures
            final(self).wf(),
            (final(self)@, r) == old(self)@.with_path(
                n@,
                base,
                path_view(path@),
                path@.len() as int,
            ),
    {
        let ghost start = self@;
        let mut cur = base;
        let mut i: usize = 0;
        while i < path.len()
            invariant
                i <= path@.len(),
                self.wf(),
                (self@, cur) == start.with_path(n@, base, path_view(path@), i as int),
            decreases path@.len() - i,
        {
            assert(path_view(path@)[i as int] == (path@[i as int].0, path@[i as int].1@));
            cur = self.alloc_gep_temp(n, cur, path[i].0, path[i].1.clone());
            i = i + 1;
        }
        cur
    }

    /// The address of a field, where the expression is one.
    pub fn addr_of_field_path(&mut self, n: &SyntaxNode) -> (r: Option<VarId>)
        requires
            old(self).wf(),
        ensures
            final(self).wf(),
            (final(self)@, r) == old(self)@.field_address(n@),
    {
        let e = peel_expression(n);
        if e.kind != NodeKind::FieldExpression {
            return None;
        }
        match self.decompose_field_path(e) {
            Some((base, path)) => Some(self.address_of_path(e, base, &path)),
            None => None,
        }
    }

    /// The variable that is stored where an expression is assigned through a
    /// pointer.
    pub fn expr_to_store_src(&mut self, n: &SyntaxNode) -> (r: Option<VarId>)
        requires
            old(self).wf(),
        ensures
            final(self).wf(),
            (final(self)@, r) == old(self)@.store_source(n@),
    {
        match n.kind {
            NodeKind::PointerExpression => {
                let a = match pointer_arg(n) {
                    Some(a) => a,
                    None => {
                        return None;
                    },
                };
                if has_pointer_op(&self.source, n, "&") {
                    match self.addr_of_field_path(a) {
                        Some(v) => Some(v),
                        None => self.resolve_lvalue_var(a),
                    }
                } else {
                    None
                }
            },
            NodeKind::Identifier => self.resolve_lvalue_var(n),
            _ => self.resolve_expr_var(n),
        }
    }

    fn address_flow(&mut self, a: &SyntaxNode, dst: VarId) -> (r: Option<FlowConstraint>)
        requires
            old(self).wf(),
        ensures
            final(self).wf(),
            (final(self)@, opt_flow(r)) == old(self)@.address_into(a@, dst),
    {
        if let Some(callee) = self.resolve_fn_ref(a) {
            return Some(FlowConstraint::AddrOfFn { dst, callee });
        }
        let name = node_text(&self.source, a);
        if let Some(src) = self.addr_of_field_path(a) {
            return Some(FlowConstraint::Copy { dst, src });
        }
        if let Some(src) = self.resolve_lvalue_var(a) {
            return Some(FlowConstraint::AddrOfVar { dst, src });
        }
        if a.kind == NodeKind::Identifier {
            self.add_pending(PendingFnRef::AddrOfIdent { dst, name });
        }
        None
    }

    /// The move that an expression makes into a variable, where there is one.
    pub fn expr_to_rhs_flow(&mut self, n: &SyntaxNode, dst: VarId) -> (r: Option<FlowConstraint>)
        requires
            old(self).wf(),
        ensures
            final(self).wf(),
            (final(self)@, opt_flow(r)) == old(self)@.moved_into(n@, dst),
        decreases n@,
    {
        match n.kind {
            NodeKind::Identifier => {
                let name = node_text(&self.source, n);
                if let Some(callee) = self.resolve_function_named(name.as_str()) {
                    return Some(FlowConstraint::AddrOfFn { dst, callee });
                }
                if let Some(src) = self.lookup_var(name.as_str()) {
                    return Some(FlowConstraint::Copy { dst, src });
                }
                self.add_pending(PendingFnRef::RhsIdent { dst, name });
                None
            },
            NodeKind::PointerExpression => {
                let a = match pointer_arg(n) {
                    Some(a) => a,
                    None => {
                        return None;
                    },
                };
                if has_pointer_op(&self.source, n, "&") {
                    self.address_flow(a, dst)
                } else if has_pointer_op(&self.source, n, "*") {
                    match self.resolve_lvalue_var(a) {
                        Some(src) => Some(FlowConstraint::Load { dst, src }),
                        None => None,
                    }
                } else {
                    None
                }
            },
            NodeKind::CastExpression => match cast_arg(n) {
                Some(a) => self.expr_to_rhs_flow(a, dst),
                None => None,
            },
            NodeKind::ParenthesizedExpression => match n.named_child(0) {
                Some(a) => self.expr_to_rhs_flow(a, dst),
                None => None,
            },
            NodeKind::CallExpression => {
                if let Some(callee_name) = resolve_direct_call_name(&self.source, n) {
                    self.add_flow(FlowConstraint::CallReturn { dst, callee_name });
                }
                None
            },
            NodeKind::FieldExpression => match self.decompose_field_path(n) {
                Some((base, path)) => {
                    if path.len() == 0 {
                        return None;
                    }
                    let src = self.address_of_path(n, base, &path);
                    Some(FlowConstraint::Load { dst, src })
                },
                None => None,
            },
            _ => match self.resolve_expr_var(n) {
                Some(src) => Some(FlowConstraint::Copy { dst, src }),
                None => None,
            },
        }
    }

    fn add_load(&mut self, n: &SyntaxNode, src: VarId, t: TypeId) -> (r: VarId)
        requires
            old(self).wf(),
        ensures
            final(self).wf(),
            (final(self)@, r) == old(self)@.with_load(n@, src, t),
    {
        let span = self.node_span(n);
        let dst = self.add_temp("_load", t, span);
        self.add_flow(FlowConstraint::Load { dst, src });
        dst
    }

    /// Loads what the last field of a path holds.
    pub fn emit_field_fn_ptr_load(
        &mut self,
        n: &SyntaxNode,
        base: VarId,
        path: &Vec<(FieldId, String)>,
    ) -> (r: Option<VarId>)
        requires
            old(self).wf(),
        ensures
            final(self).wf(),
            (final(self)@, r) == old(self)@.loaded_field(n@, base, path_view(path@)),
    {
        if path.len() == 0 {
            return None;
        }
        let ghost goal = self@.loaded_field(n@, base, path_view(path@));
        let mut t = match self.struct_type_for_var(base) {
            Some(t) => t,
            None => {
                return None;
            },
        };
        let mut cur = base;
        let mut i: usize = 0;
        while i < path.len()
            invariant
                i <= path@.len(),
                self.wf(),
                goal == old(self)@.loaded_field(n@, base, path_view(path@)),
                self@.with_loads(n@, path_view(path@), cur, t, i as int) == goal,
            decreases path@.len() - i,
        {
            assert(path_view(path@)[i as int] == (path@[i as int].0, path@[i as int].1@));
            let gep = self.alloc_gep_temp(n, cur, path[i].0, path[i].1.clone());
            let field_type = match self.program.types.field(t, path[i].0) {
                Some(f) => f.type_id,
                None => {
                    return None;
                },
            };
            if i + 1 == path.len() {
                let type_id = self.type_int();
                let load = self.add_load(n, gep, type_id);
                return Some(load);
            }
            let inner = match self.program.types.get(field_type) {
                Some(info) => match &info.desc {
                    TypeDesc::Ptr(inner) => Some(clone_desc(inner)),
                    _ => None,
                },
                None => None,
            };
            match inner {
                Some(d) => {
                    cur = self.add_load(n, gep, field_type);
                    t = self.program.types.resolve_type_id(&d);
                },
                None => {
                    cur = gep;
                    t = field_type;
                },
            }
            i = i + 1;
        }
        None
    }

    /// What is called, once what it is has been loaded from its field.
    pub fn resolve_callee_with_loads(&mut self, n: &SyntaxNode) -> (r: (
        String,
        bool,
        Option<VarId>,
    ))
        requires
            old(self).wf(),
        ensures
            final(self).wf(),
            (final(self)@, (r.0@, r.1, r.2)) == old(self)@.loaded_callee(n@),
    {
        let e = peel_expression(n);
        if e.kind == NodeKind::FieldExpression {
            let text = field_callee_text(&self.source, e);
            if let Some((base, path)) = self.decompose_field_path(e) {
                if let Some(v) = self.emit_field_fn_ptr_load(e, base, &path) {
                    return (text, false, Some(v));
                }
            }
        }
        self.resolve_callee(e)
    }
}

} // verus!
