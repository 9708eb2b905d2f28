//! The moves of values that assignments, initializers and returns make.

use crate::index::lower::exprs::path_view;
use crate::index::lower::nodes::{
    called_name, cast_arg, cast_operand, cast_operand_smaller, has_pointer_op, is_designated,
    peel_expression, peeled, peeled_not_larger, pointer_arg, pointer_op, pointer_operand,
    resolve_direct_call_name,
};
use crate::index::lower::state::{Lower, LowerV, PendV, PendingFnRef};
use crate::index::syntax::{
    child_field, children_viewed, named_child, node_text, text_of, FieldName, NodeKind, NodeV,
    SyntaxNode,
};
use crate::ir::flow::{FlowConstraint, FlowV, ReturnFlow, ReturnV};
use crate::ir::ids::{FieldId, FnId, TypeId, VarId};
use crate::ir::types::{layout_view, DescV, FieldV, TypeDesc, TypeKind};
use crate::text::{names_view, push_name};
use crate::index::lower::exprs;
use vstd::prelude::*;

verus! {

broadcast use children_viewed;

/// Something that is returned, where there is anything.
pub open spec fn opt_return(f: Option<ReturnFlow>) -> Option<ReturnV> {
    match f {
        Some(x) => Some(x@),
        None => None,
    }
}

/// What is assigned to.
pub open spec fn assigned(n: NodeV) -> Option<NodeV> {
    match child_field(n, FieldName::Left) {
        Some(l) => Some(l),
        None => named_child(n, 0),
    }
}

/// What is assigned.
pub open spec fn assigned_value(n: NodeV) -> Option<NodeV> {
    match child_field(n, FieldName::Right) {
        Some(r) => Some(r),
        None => named_child(n, 1),
    }
}

fn find_assigned(n: &SyntaxNode) -> (r: Option<&SyntaxNode>)
    ensures
        match r {
            Some(c) => assigned(n@) == Some(c@),
            None => assigned(n@) is None,
        },
{
    match n.child_by_field(FieldName::Left) {
        Some(l) => Some(l),
        None => n.named_child(0),
    }
}

fn find_assigned_value(n: &SyntaxNode) -> (r: Option<&SyntaxNode>)
    ensures
        match r {
            Some(c) => assigned_value(n@) == Some(c@),
            None => assigned_value(n@) is None,
        },
{
    match n.child_by_field(FieldName::Right) {
        Some(l) => Some(l),
        None => n.named_child(1),
    }
}

/// Whether a node is no initializer but something between them.
pub open spec fn is_punctuation(n: NodeV) -> bool {
    ||| n.kind == NodeKind::OpenParen
    ||| n.kind == NodeKind::CloseParen
    ||| n.kind == NodeKind::Comma
    ||| n.kind == NodeKind::Semicolon
    ||| n.kind == NodeKind::OpenBrace
    ||| n.kind == NodeKind::CloseBrace
}

fn between_initializers(n: &SyntaxNode) -> (r: bool)
    ensures
        r == is_punctuation(n@),
{
    match n.kind {
        NodeKind::OpenParen | NodeKind::CloseParen | NodeKind::Comma | NodeKind::Semicolon
        | NodeKind::OpenBrace | NodeKind::CloseBrace => true,
        _ => false,
    }
}

/// The names among the first `k` parts of a designator.
pub open spec fn names_in(src: Seq<char>, n: NodeV, k: int) -> Seq<Seq<char>>
    decreases k,
{
    if k <= 0 {
        Seq::empty()
    } else if n.children[k - 1].kind == NodeKind::FieldIdentifier {
        names_in(src, n, k - 1).push(text_of(src, n.children[k - 1]))
    } else {
        names_in(src, n, k - 1)
    }
}

/// The fields that the first `k` parts of an initializer designate.
pub open spec fn designators(src: Seq<char>, n: NodeV, k: int) -> Seq<Seq<char>>
    decreases k,
{
    if k <= 0 {
        Seq::empty()
    } else if n.children[k - 1].kind == NodeKind::FieldDesignator {
        designators(src, n, k - 1) + names_in(
            src,
            n.children[k - 1],
            n.children[k - 1].children.len() as int,
        )
    } else {
        designators(src, n, k - 1)
    }
}

fn add_names_in(src: &Vec<char>, n: &SyntaxNode, names: &mut Vec<String>)
    ensures
        names_view(final(names)@) == names_view(old(names)@) + names_in(
            src@,
            n@,
            n@.children.len() as int,
        ),
{
    let ghost start = names_view(names@);
    let mut i: usize = 0;
    assert(start + names_in(src@, n@, 0) =~= start);
    while i < n.children.len()
        invariant
            i <= n@.children.len(),
            names_view(names@) == start + names_in(src@, n@, i as int),
        decreases n@.children.len() - i,
    {
        let c = &n.children[i];
        if c.kind == NodeKind::FieldIdentifier {
            push_name(names, node_text(src, c));
            assert((start + names_in(src@, n@, i as int)).push(text_of(src@, c@)) =~= start
                + names_in(src@, n@, i + 1));
        }
        i = i + 1;
    }
}

fn find_designators(src: &Vec<char>, n: &SyntaxNode) -> (r: Vec<String>)
    ensures
        names_view(r@) == designators(src@, n@, n@.children.len() as int),
{
    let mut names: Vec<String> = Vec::new();
    let mut i: usize = 0;
    assert(names_view(names@) =~= Seq::empty());
    while i < n.children.len()
        invariant
            i <= n@.children.len(),
            names_view(names@) == designators(src@, n@, i as int),
        decreases n@.children.len() - i,
    {
        let c = &n.children[i];
        if c.kind == NodeKind::FieldDesignator {
            add_names_in(src, c, &mut names);
        }
        i = i + 1;
    }
    names
}

/// Whether a part of a designated initializer is the value.
pub open spec fn is_value(n: NodeV) -> bool {
    n.named && n.kind != NodeKind::FieldDesignator && n.kind != NodeKind::SubscriptDesignator
        && n.kind != NodeKind::Equals
}

/// The first part of an initializer from `i` on that is the value.
pub open spec fn designated_value(n: NodeV, i: int) -> Option<NodeV>
    decreases n.children.len() - i,
{
    if i < 0 || i >= n.children.len() {
        None
    } else if is_value(n.children[i]) {
        Some(n.children[i])
    } else {
        designated_value(n, i + 1)
    }
}

pub proof fn designated_value_smaller(n: NodeV, i: int)
    ensures
        designated_value(n, i) is Some ==> decreases_to!(n => designated_value(n, i)->0),
    decreases n.children.len() - i,
{
    if 0 <= i < n.children.len() && !is_value(n.children[i]) {
        designated_value_smaller(n, i + 1);
    }
}

fn find_designated_value(n: &SyntaxNode) -> (r: Option<&SyntaxNode>)
    ensures
        match r {
            Some(c) => designated_value(n@, 0) == Some(c@) && decreases_to!(n@ => c@),
            None => designated_value(n@, 0) is None,
        },
{
    let mut i: usize = 0;
    while i < n.children.len()
        invariant
            i <= n@.children.len(),
            designated_value(n@, i as int) == designated_value(n@, 0),
        decreases n@.children.len() - i,
    {
        let c = &n.children[i];
        if c.named && c.kind != NodeKind::FieldDesignator && c.kind != NodeKind::SubscriptDesignator
            && c.kind != NodeKind::Equals {
            proof {
                designated_value_smaller(n@, 0);
            }
            return Some(c);
        }
        i = i + 1;
    }
    None
}

/// The names of fields.
pub open spec fn names_of_fields(fields: Seq<FieldV>) -> Seq<Seq<char>> {
    Seq::new(fields.len(), |i: int| fields[i].name)
}

impl LowerV {
    /// With a value stored in the last field of a path.
    pub open spec fn with_field_value(
        self,
        at: NodeV,
        base: VarId,
        path: Seq<(FieldId, Seq<char>)>,
        value: NodeV,
    ) -> LowerV {
        if path.len() == 0 {
            self
        } else {
            let (s, dst) = self.with_path(at, base, path, path.len() as int);
            s.with_stored(at, dst, value)
        }
    }

    /// With a value stored at an address.
    pub open spec fn with_stored(self, at: NodeV, dst: VarId, value: NodeV) -> LowerV {
        match self.store_source(value) {
            (s, Some(src)) => s.with_flow(FlowV::Store { dst, src }),
            (s, None) => if value.kind == NodeKind::Identifier {
                let name = text_of(self.src, value);
                match s.named_fn(name) {
                    Some(callee) => {
                        let src = s.next_var();
                        s.with_value_temp(at).with_flow(
                            FlowV::AddrOfFn { dst: src, callee },
                        ).with_flow(FlowV::Store { dst, src })
                    },
                    None => {
                        let (t, span) = s.placed(at);
                        t.with_pending(PendV::FieldStore { dst, name, span })
                    },
                }
            } else {
                let src = s.next_var();
                let t = s.with_value_temp(at);
                if value.kind == NodeKind::CallExpression {
                    match called_name(self.src, value) {
                        Some(callee_name) => t.with_flow(
                            FlowV::CallReturn { dst: src, callee_name },
                        ).with_flow(FlowV::Store { dst, src }),
                        None => t,
                    }
                } else {
                    match t.moved_into(value, src) {
                        (u, Some(flow)) => u.with_flow(flow).with_flow(FlowV::Store { dst, src }),
                        (u, None) => u,
                    }
                }
            },
        }
    }

    /// With what an expression moves into a variable.
    pub open spec fn with_moved(self, n: NodeV, dst: VarId) -> LowerV {
        match self.moved_into(n, dst) {
            (s, Some(flow)) => s.with_flow(flow),
            (s, None) => s,
        }
    }

    /// After an assignment to a field.
    pub open spec fn after_field_store(self, lhs: NodeV, rhs: NodeV) -> LowerV {
        match self.field_path(lhs) {
            (s, Some((base, path))) => s.with_field_value(lhs, base, path, rhs),
            (s, None) => s,
        }
    }

    /// After an assignment through a pointer.
    pub open spec fn after_pointer_store(
        self,
        n: NodeV,
        lhs: NodeV,
        rhs: NodeV,
    ) -> LowerV {
        match pointer_operand(lhs) {
            Some(a) => match self.lvalue(a) {
                Some(dst) => match self.store_source(rhs) {
                    (s, Some(src)) => s.with_flow(FlowV::Store { dst, src }),
                    (s, None) => match called_name(self.src, rhs) {
                        Some(callee_name) => if rhs.kind == NodeKind::CallExpression {
                            let src = s.next_var();
                            s.with_value_temp(n).with_flow(
                                FlowV::CallReturn { dst: src, callee_name },
                            ).with_flow(FlowV::Store { dst, src })
                        } else {
                            s
                        },
                        None => s,
                    },
                },
                None => self,
            },
            None => self,
        }
    }

    /// After an assignment.
    pub open spec fn after_assignment(self, n: NodeV) -> LowerV {
        match (assigned(n), assigned_value(n)) {
            (Some(l), Some(rhs)) => {
                let lhs = peeled(l);
                if pointer_op(self.src, lhs) == Some("*"@) {
                    self.after_pointer_store(n, lhs, rhs)
                } else if lhs.kind == NodeKind::FieldExpression {
                    self.after_field_store(lhs, rhs)
                } else {
                    match self.lvalue(lhs) {
                        Some(dst) => self.with_moved(rhs, dst),
                        None => self,
                    }
                }
            },
            _ => self,
        }
    }

    /// The fields of the structure that a variable is, in order.
    pub open spec fn positional_fields(self, base: VarId) -> Seq<Seq<char>> {
        match self.struct_named_by(base) {
            Some(t) => if t.0 < self.p.types.types.len() {
                names_of_fields(self.p.types.types[t.0 as int].fields)
            } else {
                Seq::empty()
            },
            None => Seq::empty(),
        }
    }

    /// The structure that a variable is.
    pub open spec fn struct_named_by(self, base: VarId) -> Option<TypeId> {
        match self.p.symbols.variable(base) {
            Some(v) => match self.p.types.desc(v.type_id) {
                Some(DescV::Struct { name, fields }) => self.tagged(name),
                _ => None,
            },
            None => None,
        }
    }

    /// The field of a name in the structure that a variable is.
    pub open spec fn field_for(self, base: VarId, name: Seq<char>) -> Option<FieldId> {
        match self.struct_named_by(base) {
            Some(t) => match self.p.types.field_position(t, name, 0) {
                Some(k) => Some(FieldId(k as u32)),
                None => None,
            },
            None => None,
        }
    }

    /// After a list of initializers for a variable.
    pub open spec fn after_list(self, n: NodeV, base: VarId) -> LowerV
        decreases n, 1int, 0int,
    {
        self.after_items(n, base, self.positional_fields(base), n.children.len() as int).0
    }

    /// After the first `k` parts of a list, and how many values without a
    /// designator were among them.
    pub open spec fn after_items(
        self,
        n: NodeV,
        base: VarId,
        names: Seq<Seq<char>>,
        k: int,
    ) -> (LowerV, nat)
        decreases n, 0int, k,
    {
        if k <= 0 || k > n.children.len() {
            (self, 0)
        } else {
            let (s, pos) = self.after_items(n, base, names, k - 1);
            let c = n.children[k - 1];
            if is_designated(c) {
                (s.after_designated(c, base), pos)
            } else if is_punctuation(c) {
                (s, pos)
            } else if pos < names.len() {
                match s.field_for(base, names[pos as int]) {
                    Some(id) => (
                        s.with_field_value(c, base, seq![(id, names[pos as int])], c),
                        pos + 1,
                    ),
                    None => (s, pos + 1),
                }
            } else {
                (s, pos + 1)
            }
        }
    }

    /// After an initializer with a designator.
    pub open spec fn after_designated(self, n: NodeV, base: VarId) -> LowerV
        decreases n, 0int, 0int,
    {
        let names = designators(self.src, n, n.children.len() as int);
        match designated_value(n, 0) {
            Some(value) => match self.struct_of_var(base) {
                (s, Some(t)) => if value.kind == NodeKind::InitializerList {
                    proof {
                        designated_value_smaller(n, 0);
                    }
                    match s.with_designated(n, names, base, t, 0) {
                        (u, Some(cur)) => u.after_list(value, cur),
                        (u, None) => u,
                    }
                } else if names.len() == 0 {
                    s
                } else {
                    match s.designated_path(t, names, Seq::empty(), 0) {
                        Some(path) => s.with_field_value(n, base, path, value),
                        None => s,
                    }
                },
                (s, None) => s,
            },
            None => self,
        }
    }

    /// With the addresses of the fields that the names from `i` on lead to,
    /// and the last address.
    pub open spec fn with_designated(
        self,
        n: NodeV,
        names: Seq<Seq<char>>,
        cur: VarId,
        t: TypeId,
        i: int,
    ) -> (LowerV, Option<VarId>)
        decreases names.len() - i,
    {
        if i < 0 || i >= names.len() {
            (self, Some(cur))
        } else {
            match exprs::field_called(self.p.types, t, names[i]) {
                Some((id, f)) => {
                    let (s, u) = self.with_field_temp(n, cur, id, names[i]).pointee(f.type_id);
                    s.with_designated(n, names, self.next_var(), u, i + 1)
                },
                None => (self, None),
            }
        }
    }

    /// The fields that the names from `i` on lead to.
    pub open spec fn designated_path(
        self,
        t: TypeId,
        names: Seq<Seq<char>>,
        path: Seq<(FieldId, Seq<char>)>,
        i: int,
    ) -> Option<Seq<(FieldId, Seq<char>)>>
        decreases names.len() - i,
    {
        if i < 0 || i >= names.len() {
            Some(path)
        } else {
            match exprs::field_called(self.p.types, t, names[i]) {
                Some((id, f)) => self.designated_path(
                    f.type_id,
                    names,
                    path.push((id, names[i])),
                    i + 1,
                ),
                None => None,
            }
        }
    }

    /// After an expression whose value goes into a variable, or nowhere.
    pub open spec fn after_expr(self, n: NodeV, target: Option<VarId>) -> LowerV
        decreases n, 1int, 0int,
    {
        if n.kind == NodeKind::AssignmentExpression {
            self.after_assignment(n)
        } else {
            match target {
                Some(dst) => if n.kind == NodeKind::InitializerList {
                    self.after_list(n, dst)
                } else {
                    self.with_moved(n, dst)
                },
                None => self.after_parts(n, n.children.len() as int),
            }
        }
    }

    /// After the first `k` parts of an expression.
    pub open spec fn after_parts(self, n: NodeV, k: int) -> LowerV
        decreases n, 0int, k,
    {
        if k <= 0 || k > n.children.len() {
            self
        } else {
            self.after_parts(n, k - 1).after_expr(n.children[k - 1], None)
        }
    }

    /// What an expression returns from a function, where there is anything.
    pub open spec fn returned_by(self, n: NodeV, f: FnId) -> (LowerV, Option<ReturnV>)
        decreases n,
    {
        let e = peeled(n);
        if e.kind == NodeKind::PointerExpression {
            match pointer_operand(e) {
                Some(a) => if pointer_op(self.src, e) == Some("&"@) {
                    self.address_returned(a, f)
                } else {
                    (self, None)
                },
                None => (self, None),
            }
        } else if e.kind == NodeKind::Identifier {
            let name = text_of(self.src, e);
            if self.named_fn(name) is Some {
                (self, None)
            } else {
                match self.lookup(name) {
                    Some(src) => (self, Some(ReturnV::Copy { src })),
                    None => (self.with_pending(PendV::ReturnIdent { owner: f, name }), None),
                }
            }
        } else if e.kind == NodeKind::CallExpression {
            match called_name(self.src, e) {
                Some(callee_name) => (self, Some(ReturnV::Call { callee_name })),
                None => (self, None),
            }
        } else if e.kind == NodeKind::CastExpression {
            match cast_operand(e) {
                Some(a) => {
                    proof {
                        peeled_not_larger(n);
                        cast_operand_smaller(e);
                    }
                    self.returned_by(a, f)
                },
                None => (self, None),
            }
        } else {
            (self, None)
        }
    }

    /// What is returned where the address of an expression is.
    pub open spec fn address_returned(self, a: NodeV, f: FnId) -> (LowerV, Option<ReturnV>) {
        match self.fn_named_by(a) {
            Some(callee) => (self, Some(ReturnV::AddrOfFn { callee })),
            None => match self.field_address(a) {
                (s, Some(src)) => (s, Some(ReturnV::Copy { src })),
                (s, None) => match s.lvalue(a) {
                    Some(src) => (s, Some(ReturnV::AddrOfVar { src })),
                    None => if a.kind == NodeKind::Identifier {
                        (
                            s.with_pending(
                                PendV::ReturnAddrOf { owner: f, name: text_of(self.src, a) },
                            ),
                            None,
                        )
                    } else {
                        (s, None)
                    },
                },
            },
        }
    }

    /// After a `return`.
    pub open spec fn after_return(self, n: NodeV, f: FnId) -> LowerV {
        let value = match child_field(n, FieldName::Value) {
            Some(v) => Some(v),
            None => named_child(n, 0),
        };
        match value {
            Some(v) => if v.kind == NodeKind::Semicolon {
                self
            } else {
                match self.returned_by(v, f) {
                    (s, Some(flow)) => s.with_returned(f, flow),
                    (s, None) => s,
                }
            },
            None => self,
        }
    }
}

impl Lower {
    /// Stores a value at an address.
    fn emit_store(&mut self, at: &SyntaxNode, dst: VarId, value: &SyntaxNode)
        requires
            old(self).wf(),
        ensures
            final(self).wf(),
            final(self)@ == old(self)@.with_stored(at@, dst, value@),
    {
        let name = node_text(&self.source, value);
        let called = resolve_direct_call_name(&self.source, value);
        if let Some(src) = self.expr_to_store_src(value) {
            self.add_flow(FlowConstraint::Store { dst, src });
        } else if value.kind == NodeKind::Identifier {
            match self.resolve_function_named(name.as_str()) {
                Some(callee) => {
                    let src = self.alloc_ret_temp(at);
                    self.add_flow(FlowConstraint::AddrOfFn { dst: src, callee });
                    self.add_flow(FlowConstraint::Store { dst, src });
                },
                None => {
                    let span = self.node_span(at);
                    self.add_pending(PendingFnRef::FieldStore { dst, name, span });
                },
            }
        } else {
            let src = self.alloc_ret_temp(at);
            if value.kind == NodeKind::CallExpression {
                if let Some(callee_name) = called {
                    self.add_flow(FlowConstraint::CallReturn { dst: src, callee_name });
                    self.add_flow(FlowConstraint::Store { dst, src });
                }
            } else {
                if let Some(flow) = self.expr_to_rhs_flow(value, src) {
                    self.add_flow(flow);
                    self.add_flow(FlowConstraint::Store { dst, src });
                }
            }
        }
    }

    /// Stores a value in the last field of a path.
    pub fn emit_field_value_store(
        &mut self,
        at: &SyntaxNode,
        base: VarId,
        path: &Vec<(FieldId, String)>,
        value: &SyntaxNode,
    )
        requires
            old(self).wf(),
        ensures
            final(self).wf(),
            final(self)@ == old(self)@.with_field_value(at@, base, path_view(path@), value@),
    {
        if path.len() == 0 {
            return ;
        }
        let dst = self.address_of_path(at, base, path);
        self.emit_store(at, dst, value);
    }

    /// Lowers an assignment to a field.
    pub fn emit_field_store(&mut self, lhs: &SyntaxNode, rhs: &SyntaxNode)
        requires
            old(self).wf(),
        ensures
            final(self).wf(),
            final(self)@ == old(self)@.after_field_store(lhs@, rhs@),
    {
        if let Some((base, path)) = self.decompose_field_path(lhs) {
            self.emit_field_value_store(lhs, base, &path, rhs);
        }
    }

    fn emit_moved(&mut self, n: &SyntaxNode, dst: VarId)
        requires
            old(self).wf(),
        ensures
            final(self).wf(),
            final(self)@ == old(self)@.with_moved(n@, dst),
    {
        if let Some(flow) = self.expr_to_rhs_flow(n, dst) {
            self.add_flow(flow);
        }
    }

    fn emit_pointer_store(&mut self, n: &SyntaxNode, lhs: &SyntaxNode, rhs: &SyntaxNode)
        requires
            old(self).wf(),
        ensures
            final(self).wf(),
            final(self)@ == old(self)@.after_pointer_store(n@, lhs@, rhs@),
    {
        if let Some(a) = pointer_arg(lhs) {
            if let Some(dst) = self.resolve_lvalue_var(a) {
                let called = resolve_direct_call_name(&self.source, rhs);
                if let Some(src) = self.expr_to_store_src(rhs) {
                    self.add_flow(FlowConstraint::Store { dst, src });
                } else if rhs.kind == NodeKind::CallExpression {
                    if let Some(callee_name) = called {
                        let src = self.alloc_ret_temp(n);
                        self.add_flow(FlowConstraint::CallReturn { dst: src, callee_name });
                        self.add_flow(FlowConstraint::Store { dst, src });
                    }
                }
            }
        }
    }

    fn lower_assignment(&mut self, n: &SyntaxNode)
        requires
            old(self).wf(),
        ensures
            final(self).wf(),
            final(self)@ == old(self)@.after_assignment(n@),
    {
        let l = match find_assigned(n) {
            Some(l) => l,
            None => {
                return ;
            },
        };
        let rhs = match find_assigned_value(n) {
            Some(r) => r,
            None => {
                return ;
            },
        };
        let lhs = peel_expression(l);
        if has_pointer_op(&self.source, lhs, "*") {
            self.emit_pointer_store(n, lhs, rhs);
        } else if lhs.kind == NodeKind::FieldExpression {
            self.emit_field_store(lhs, rhs);
        } else if let Some(dst) = self.resolve_lvalue_var(lhs) {
            self.emit_moved(rhs, dst);
        }
    }

    fn find_struct_of(&self, base: VarId) -> (r: Option<TypeId>)
        ensures
            r == self@.struct_named_by(base),
    {
        match self.program.symbols.variable_by_id(base) {
            Some(v) => match self.program.types.get(v.type_id) {
                Some(info) => match &info.desc {
                    TypeDesc::Struct { name, fields } => self.program.types.type_id_by_tag(
                        name.as_str(),
                        TypeKind::Struct,
                    ),
                    _ => None,
                },
                None => None,
            },
            None => None,
        }
    }

    /// The fields of the structure that a variable is, in order.
    pub fn positional_struct_fields(&self, base: VarId) -> (r: Vec<String>)
        ensures
            names_view(r@) == self@.positional_fields(base),
    {
        let mut out: Vec<String> = Vec::new();
        assert(names_view(out@) =~= Seq::empty());
        if let Some(t) = self.find_struct_of(base) {
            if let Some(info) = self.program.types.get(t) {
                let ghost all = names_of_fields(layout_view(info.layout.fields@));
                let mut i: usize = 0;
                assert(all.take(0) =~= Seq::empty());
                while i < info.layout.fields.len()
                    invariant
                        all == names_of_fields(layout_view(info.layout.fields@)),
                        i <= info.layout.fields@.len(),
                        names_view(out@) == all.take(i as int),
                    decreases info.layout.fields@.len() - i,
                {
                    push_name(&mut out, info.layout.fields[i].name.clone());
                    assert(all.take(i as int).push(all[i as int]) =~= all.take(i + 1));
                    i = i + 1;
                }
                assert(all.take(i as int) =~= all);
            }
        }
        out
    }

    /// The field of a name in the structure that a variable is.
    pub fn field_id_for(&self, base: VarId, name: &str) -> (r: Option<FieldId>)
        ensures
            r == self@.field_for(base, name@),
    {
        match self.find_struct_of(base) {
            Some(t) => self.program.types.field_id_by_name(t, name),
            None => None,
        }
    }

    /// Lowers a list of initializers for a variable.
    #[verifier::rlimit(40)]
    pub fn lower_initializer_list(&mut self, n: &SyntaxNode, base: VarId)
        requires
            old(self).wf(),
        ensures
            final(self).wf(),
            final(self)@ == old(self)@.after_list(n@, base),
        decreases n@, 1int,
    {
        let ghost start = self@;
        let names = self.positional_struct_fields(base);
        let ghost all = names_view(names@);
        let mut pos: usize = 0;
        let mut i: usize = 0;
        while i < n.children.len()
            invariant
                i <= n@.children.len(),
                pos <= i,
                self.wf(),
                all == names_view(names@),
                (self@, pos as nat) == start.after_items(n@, base, all, i as int),
            decreases n@.children.len() - i,
        {
            let c = &n.children[i];
            if c.kind == NodeKind::DesignatedInitializer || c.kind == NodeKind::InitializerPair {
                self.lower_designated_initializer(c, base);
            } else if !between_initializers(c) {
                if pos < names.len() {
                    let name = &names[pos];
                    assert(all[pos as int] == name@);
                    if let Some(id) = self.field_id_for(base, name.as_str()) {
                        let mut path: Vec<(FieldId, String)> = Vec::new();
                        path.push((id, name.clone()));
                        assert(path_view(path@) =~= seq![(id, name@)]);
                        self.emit_field_value_store(c, base, &path, c);
                    }
                }
                pos = pos + 1;
            }
            i = i + 1;
        }
    }

    fn add_designated(
        &mut self,
        n: &SyntaxNode,
        names: &Vec<String>,
        base: VarId,
        t: TypeId,
    ) -> (r: Option<VarId>)
        requires
            old(self).wf(),
        ensures
            final(self).wf(),
            (final(self)@, r) == old(self)@.with_designated(n@, names_view(names@), base, t, 0),
    {
        let ghost goal = self@.with_designated(n@, names_view(names@), base, t, 0);
        let mut cur = base;
        let mut ty = t;
        let mut i: usize = 0;
        while i < names.len()
            invariant
                i <= names@.len(),
                self.wf(),
                goal == old(self)@.with_designated(n@, names_view(names@), base, t, 0),
                self@.with_designated(n@, names_view(names@), cur, ty, i as int) == goal,
            decreases names@.len() - i,
        {
            let name = &names[i];
            assert(names_view(names@)[i as int] == name@);
            match self.find_field(ty, name.as_str()) {
                Some((id, u)) => {
                    cur = self.alloc_gep_temp(n, cur, id, name.clone());
                    ty = self.peel_ptr_to_struct(u);
                },
                None => {
                    return None;
                },
            }
            i = i + 1;
        }
        Some(cur)
    }

    fn find_designated_path(&self, t: TypeId, names: &Vec<String>) -> (r: Option<
        Vec<(FieldId, String)>,
    >)
        ensures
            match r {
                Some(path) => self@.designated_path(t, names_view(names@), Seq::empty(), 0) == Some(
                    path_view(path@),
                ),
                None => self@.designated_path(t, names_view(names@), Seq::empty(), 0) is None,
            },
    {
        let ghost goal = self@.designated_path(t, names_view(names@), Seq::empty(), 0);
        let mut path: Vec<(FieldId, String)> = Vec::new();
        let mut cur = t;
        let mut i: usize = 0;
        assert(path_view(path@) =~= Seq::empty());
        while i < names.len()
            invariant
                i <= names@.len(),
                goal == self@.designated_path(t, names_view(names@), Seq::empty(), 0),
                self@.designated_path(cur, names_view(names@), path_view(path@), i as int) == goal,
            decreases names@.len() - i,
        {
            let name = &names[i];
            assert(names_view(names@)[i as int] == name@);
            match self.find_field(cur, name.as_str()) {
                Some((id, u)) => {
                    let ghost before = path@;
                    path.push((id, name.clone()));
                    assert(path_view(path@) =~= path_view(before).push((id, name@)));
                    cur = u;
                },
                None => {
                    return None;
                },
            }
            i = i + 1;
        }
        Some(path)
    }

    /// Lowers an initializer with a designator.
    pub fn lower_designated_initializer(&mut self, n: &SyntaxNode, base: VarId)
        requires
            old(self).wf(),
        ensures
            final(self).wf(),
            final(self)@ == old(self)@.after_designated(n@, base),
        decreases n@, 0int,
    {
        let names = find_designators(&self.source, n);
        let value = match find_designated_value(n) {
            Some(v) => v,
            None => {
                return ;
            },
        };
        let t = match self.struct_type_for_var(base) {
            Some(t) => t,
            None => {
                return ;
            },
        };
        if value.kind == NodeKind::InitializerList {
            if let Some(cur) = self.add_designated(n, &names, base, t) {
                self.lower_initializer_list(value, cur);
            }
        } else if names.len() > 0 {
            if let Some(path) = self.find_designated_path(t, &names) {
                self.emit_field_value_store(n, base, &path, value);
            }
        }
    }

    /// Lowers an expression whose value goes into a variable, or nowhere.
    pub fn extract_flow_from_expr(&mut self, n: &SyntaxNode, target: Option<VarId>)
        requires
            old(self).wf(),
        ensures
            final(self).wf(),
            final(self)@ == old(self)@.after_expr(n@, target),
        decreases n@,
    {
        if n.kind == NodeKind::AssignmentExpression {
            self.lower_assignment(n);
            return ;
        }
        if let Some(dst) = target {
            if n.kind == NodeKind::InitializerList {
                self.lower_initializer_list(n, dst);
            } else {
                self.emit_moved(n, dst);
            }
            return ;
        }
        let ghost start = self@;
        let mut i: usize = 0;
        while i < n.children.len()
            invariant
                i <= n@.children.len(),
                self.wf(),
                self@ == start.after_parts(n@, i as int),
            decreases n@.children.len() - i,
        {
            self.extract_flow_from_expr(&n.children[i], None);
            i = i + 1;
        }
    }

    fn address_return(&mut self, a: &SyntaxNode, f: FnId) -> (r: Option<ReturnFlow>)
        requires
            old(self).wf(),
        ensures
            final(self).wf(),
            (final(self)@, opt_return(r)) == old(self)@.address_returned(a@, f),
    {
        if let Some(callee) = self.resolve_fn_ref(a) {
            return Some(ReturnFlow::AddrOfFn { callee });
        }
        let name = node_text(&self.source, a);
        if let Some(src) = self.addr_of_field_path(a) {
            return Some(ReturnFlow::Copy { src });
        }
        if let Some(src) = self.resolve_lvalue_var(a) {
            return Some(ReturnFlow::AddrOfVar { src });
        }
        if a.kind == NodeKind::Identifier {
            self.add_pending(PendingFnRef::ReturnAddrOf { owner: f, name });
        }
        None
    }

    /// What an expression returns from a function, where there is anything.
    pub fn return_flow_from_expr(&mut self, n: &SyntaxNode, f: FnId) -> (r: Option<ReturnFlow>)
        requires
            old(self).wf(),
        ensures
            final(self).wf(),
            (final(self)@, opt_return(r)) == old(self)@.returned_by(n@, f),
        decreases n@,
    {
        let e = peel_expression(n);
        proof {
            peeled_not_larger(n@);
        }
        match e.kind {
            NodeKind::PointerExpression => {
                let a = match pointer_arg(e) {
                    Some(a) => a,
                    None => {
                        return None;
                    },
                };
                if has_pointer_op(&self.source, e, "&") {
                    self.address_return(a, f)
                } else {
                    None
                }
            },
            NodeKind::Identifier => {
                let name = node_text(&self.source, e);
                if self.resolve_function_named(name.as_str()).is_some() {
                    return None;
                }
                if let Some(src) = self.lookup_var(name.as_str()) {
                    return Some(ReturnFlow::Copy { src });
                }
                self.add_pending(PendingFnRef::ReturnIdent { owner: f, name });
                None
            },
            NodeKind::CallExpression => match resolve_direct_call_name(&self.source, e) {
                Some(callee_name) => Some(ReturnFlow::Call { callee_name }),
                None => None,
            },
            NodeKind::CastExpression => match cast_arg(e) {
                Some(a) => self.return_flow_from_expr(a, f),
                None => None,
            },
            _ => None,
        }
    }

    /// Lowers a `return`.
    pub fn collect_return_statement(&mut self, n: &SyntaxNode, f: FnId)
        requires
            old(self).wf(),
        ensures
            final(self).wf(),
            final(self)@ == old(self)@.after_return(n@, f),
    {
        let value = match n.child_by_field(FieldName::Value) {
            Some(v) => Some(v),
            None => n.named_child(0),
        };
        if let Some(v) = value {
            if v.kind != NodeKind::Semicolon {
                if let Some(flow) = self.return_flow_from_expr(v, f) {
                    self.add_return(f, flow);
                }
            }
        }
    }
}

} // verus!
