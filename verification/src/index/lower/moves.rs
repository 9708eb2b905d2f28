//! What expressions, assignments and returns move, over the syntax tree alone.

use crate::index::lower::exprs::new_class_node;
use crate::index::lower::nodes::{peeled, pointer_op};
use crate::index::lower::state::{LowerV, PendV};
use crate::index::syntax::{
    child_field, field_from, named_child, named_from, text_of, FieldName, NodeKind, NodeV,
};
use crate::ir::flow::{FlowV, ReturnV};
use crate::ir::ids::{FnId, VarId};
use crate::ir::program::{returned, with_return, ProgramV};
use vstd::prelude::*;

verus! {

/// Whether the child at `j` is the first that is a field.
pub open spec fn is_field_at(n: NodeV, f: FieldName, j: int) -> bool {
    &&& 0 <= j < n.children.len()
    &&& n.children[j].field == f
    &&& forall|k: int| 0 <= k < j ==> (#[trigger] n.children[k]).field != f
}

/// Whether no child is a field.
pub open spec fn lacks_field(n: NodeV, f: FieldName) -> bool {
    forall|k: int| 0 <= k < n.children.len() ==> (#[trigger] n.children[k]).field != f
}

/// Whether the child at `j` is the first that is named.
pub open spec fn is_first_named(n: NodeV, j: int) -> bool {
    &&& 0 <= j < n.children.len()
    &&& n.children[j].named
    &&& forall|k: int| 0 <= k < j ==> !(#[trigger] n.children[k]).named
}

/// Whether the children at `i` and `j` are the first two that are named.
pub open spec fn are_first_named(n: NodeV, i: int, j: int) -> bool {
    &&& is_first_named(n, i)
    &&& i < j < n.children.len()
    &&& n.children[j].named
    &&& forall|k: int| i < k < j ==> !(#[trigger] n.children[k]).named
}

proof fn field_found_from(n: NodeV, f: FieldName, i: int, j: int)
    requires
        is_field_at(n, f, j),
        0 <= i <= j,
    ensures
        field_from(n, f, i) == Some(n.children[j]),
    decreases j - i,
{
    if i < j {
        assert(n.children[i].field != f);
        field_found_from(n, f, i + 1, j);
    }
}

pub proof fn field_found(n: NodeV, f: FieldName, j: int)
    requires
        is_field_at(n, f, j),
    ensures
        child_field(n, f) == Some(n.children[j]),
{
    field_found_from(n, f, 0, j);
}

proof fn field_missing_from(n: NodeV, f: FieldName, i: int)
    requires
        lacks_field(n, f),
        0 <= i <= n.children.len(),
    ensures
        field_from(n, f, i) is None,
    decreases n.children.len() - i,
{
    if i < n.children.len() {
        assert(n.children[i].field != f);
        field_missing_from(n, f, i + 1);
    }
}

pub proof fn field_missing(n: NodeV, f: FieldName)
    requires
        lacks_field(n, f),
    ensures
        child_field(n, f) is None,
{
    field_missing_from(n, f, 0);
}

proof fn named_skips(n: NodeV, k: nat, i: int, j: int)
    requires
        0 <= i <= j <= n.children.len(),
        forall|m: int| i <= m < j ==> !(#[trigger] n.children[m]).named,
    ensures
        named_from(n, k, i) == named_from(n, k, j),
    decreases j - i,
{
    if i < j {
        assert(!n.children[i].named);
        named_skips(n, k, i + 1, j);
    }
}

pub proof fn first_named_found(n: NodeV, j: int)
    requires
        is_first_named(n, j),
    ensures
        named_child(n, 0) == Some(n.children[j]),
{
    named_skips(n, 0, 0, j);
}

pub proof fn second_named_found(n: NodeV, i: int, j: int)
    requires
        are_first_named(n, i, j),
    ensures
        named_child(n, 1) == Some(n.children[j]),
{
    named_skips(n, 1, 0, i);
    assert(named_from(n, 1, i) == named_from(n, 0, i + 1));
    named_skips(n, 0, i + 1, j);
}

/// Whether the child at `j` is what a cast is of: the one that is its
/// expression, or else the one behind the type.
pub open spec fn is_cast_of(n: NodeV, j: int) -> bool {
    &&& n.kind == NodeKind::CastExpression
    &&& is_field_at(n, FieldName::Expression, j) || (lacks_field(n, FieldName::Expression)
        && exists|i: int| #[trigger] are_first_named(n, i, j))
}

proof fn cast_found(n: NodeV, j: int)
    requires
        is_cast_of(n, j),
    ensures
        child_field(n, FieldName::Expression) == Some(n.children[j]) || (child_field(
            n,
            FieldName::Expression,
        ) is None && named_child(n, 1) == Some(n.children[j])),
{
    if is_field_at(n, FieldName::Expression, j) {
        field_found(n, FieldName::Expression, j);
    } else {
        field_missing(n, FieldName::Expression);
        let i = choose|i: int| #[trigger] are_first_named(n, i, j);
        second_named_found(n, i, j);
    }
}

/// A cast changes nothing of what is moved, denoted or returned: all of that is
/// what its operand moves, denotes and returns.
pub proof fn casts_move_their_operand(s: LowerV, n: NodeV, j: int, dst: VarId, f: FnId)
    requires
        is_cast_of(n, j),
    ensures
        s.moved_into(n, dst) == s.moved_into(n.children[j], dst),
        s.lvalue(n) == s.lvalue(n.children[j]),
        s.returned_by(n, f) == s.returned_by(n.children[j], f),
{
    cast_found(n, j);
}

/// Parentheses change nothing of what is moved, denoted, called or returned.
pub proof fn parentheses_move_their_operand(s: LowerV, n: NodeV, j: int, dst: VarId, f: FnId)
    requires
        n.kind == NodeKind::ParenthesizedExpression,
        is_first_named(n, j),
    ensures
        s.moved_into(n, dst) == s.moved_into(n.children[j], dst),
        s.lvalue(n) == s.lvalue(n.children[j]),
        s.value_var(n) == s.value_var(n.children[j]),
        s.returned_by(n, f) == s.returned_by(n.children[j], f),
        s.callee(n) == s.callee(n.children[j]),
        s.loaded_callee(n) == s.loaded_callee(n.children[j]),
        s.static_class(n) == s.static_class(n.children[j]),
{
    first_named_found(n, j);
    assert(peeled(n) == peeled(n.children[j]));
}

/// A name moves what it means: the address of the function, or else what the
/// variable holds. A name that means nothing yet moves nothing, and is looked at
/// again later.
pub proof fn names_move_what_they_mean(s: LowerV, n: NodeV, dst: VarId)
    requires
        n.kind == NodeKind::Identifier,
    ensures
        match s.p.symbols.resolve_in_scope(text_of(s.src, n), Some(s.file)) {
            Some(f) => s.moved_into(n, dst) == (s, Some(FlowV::AddrOfFn { dst, callee: f })),
            None => match s.lookup(text_of(s.src, n)) {
                Some(v) => s.moved_into(n, dst) == (s, Some(FlowV::Copy { dst, src: v })),
                None => {
                    let (t, flow) = s.moved_into(n, dst);
                    &&& flow is None
                    &&& t.p == s.p
                    &&& t.pending == s.pending.push(
                        PendV::RhsIdent { dst, name: text_of(s.src, n) },
                    )
                },
            },
        },
        s.lvalue(n) == s.lookup(text_of(s.src, n)),
        s.value_var(n) == s.lookup(text_of(s.src, n)),
{
}

/// Inside a function its own variables come before those of the whole program,
/// and these before those of the file and of the function that outlive a call.
/// What is found is always a variable that is declared.
pub proof fn names_mean_the_nearest_variable(s: LowerV, name: Seq<char>)
    ensures
        s.current_fn is Some && s.locals.contains_key(name) ==> s.lookup(name) == Some(
            VarId(s.locals[name]),
        ),
        !(s.current_fn is Some && s.locals.contains_key(name))
            && s.p.symbols.globals.contains_key(name) ==> s.lookup(name) == Some(
            VarId(s.p.symbols.globals[name]),
        ),
{
}

/// Whether a pointer expression has an operator, and its operand is the child at
/// `j`.
pub open spec fn is_pointer_op(src: Seq<char>, n: NodeV, op: Seq<char>, j: int) -> bool {
    &&& n.kind == NodeKind::PointerExpression
    &&& is_field_at(n, FieldName::Argument, j)
    &&& exists|i: int| #[trigger]
        is_field_at(n, FieldName::Operator, i) && text_of(src, n.children[i]) == op
}

proof fn pointer_parts(src: Seq<char>, n: NodeV, op: Seq<char>, j: int)
    requires
        is_pointer_op(src, n, op, j),
    ensures
        child_field(n, FieldName::Argument) == Some(n.children[j]),
        child_field(n, FieldName::Operator) is Some,
        text_of(src, child_field(n, FieldName::Operator)->0) == op,
{
    field_found(n, FieldName::Argument, j);
    let i = choose|i: int| #[trigger]
        is_field_at(n, FieldName::Operator, i) && text_of(src, n.children[i]) == op;
    field_found(n, FieldName::Operator, i);
}

/// `&f` moves the address of the function, `&x` that of the variable; returned,
/// they are returned.
pub proof fn addresses_move_what_they_are_of(s: LowerV, n: NodeV, j: int, dst: VarId, f: FnId)
    requires
        is_pointer_op(s.src, n, "&"@, j),
        n.children[j].kind == NodeKind::Identifier,
    ensures
        ({
            let name = text_of(s.src, n.children[j]);
            match s.p.symbols.resolve_in_scope(name, Some(s.file)) {
                Some(g) => {
                    &&& s.moved_into(n, dst) == (s, Some(FlowV::AddrOfFn { dst, callee: g }))
                    &&& s.returned_by(n, f) == (s, Some(ReturnV::AddrOfFn { callee: g }))
                },
                None => match s.lookup(name) {
                    Some(v) => {
                        &&& s.moved_into(n, dst) == (s, Some(FlowV::AddrOfVar { dst, src: v }))
                        &&& s.returned_by(n, f) == (s, Some(ReturnV::AddrOfVar { src: v }))
                    },
                    None => {
                        &&& s.moved_into(n, dst) == (
                            s.with_pending(PendV::AddrOfIdent { dst, name }),
                            None::<FlowV>,
                        )
                        &&& s.returned_by(n, f) == (
                            s.with_pending(PendV::ReturnAddrOf { owner: f, name }),
                            None::<ReturnV>,
                        )
                    },
                },
            }
        }),
{
    pointer_parts(s.src, n, "&"@, j);
}

/// `*p` moves what stands where the variable points.
pub proof fn dereferences_load(s: LowerV, n: NodeV, j: int, dst: VarId, v: VarId)
    requires
        is_pointer_op(s.src, n, "*"@, j),
        n.children[j].kind == NodeKind::Identifier,
        s.lookup(text_of(s.src, n.children[j])) == Some(v),
    ensures
        s.moved_into(n, dst) == (s, Some(FlowV::Load { dst, src: v })),
{
    reveal_strlit("&");
    reveal_strlit("*");
    assert("&"@ != "*"@) by {
        assert("&"@[0] != "*"@[0]);
    }
    pointer_parts(s.src, n, "*"@, j);
}

/// A call by name moves what the functions of that name return; returned, it is
/// returned.
pub proof fn calls_move_what_is_returned(s: LowerV, n: NodeV, j: int, dst: VarId, f: FnId)
    requires
        n.kind == NodeKind::CallExpression,
        is_field_at(n, FieldName::Function, j),
        n.children[j].kind == NodeKind::Identifier,
    ensures
        ({
            let name = text_of(s.src, n.children[j]);
            let (t, flow) = s.moved_into(n, dst);
            &&& flow is None
            &&& t.p.flow == s.p.flow.push(FlowV::CallReturn { dst, callee_name: name })
            &&& t == (LowerV {
                p: ProgramV { flow: t.p.flow, ..s.p },
                ..s
            })
            &&& s.returned_by(n, f) == (s, Some(ReturnV::Call { callee_name: name }))
        }),
{
    field_found(n, FieldName::Function, j);
}

/// Whether the children at `i` and `j` are what an assignment assigns to, and
/// what it assigns.
pub open spec fn is_assignment(n: NodeV, i: int, j: int) -> bool {
    &&& n.kind == NodeKind::AssignmentExpression
    &&& is_field_at(n, FieldName::Left, i)
    &&& is_field_at(n, FieldName::Right, j)
}

proof fn assignment_parts(n: NodeV, i: int, j: int)
    requires
        is_assignment(n, i, j),
    ensures
        child_field(n, FieldName::Left) == Some(n.children[i]),
        child_field(n, FieldName::Right) == Some(n.children[j]),
{
    field_found(n, FieldName::Left, i);
    field_found(n, FieldName::Right, j);
}

/// Whether lowering goes on from one state to another with one more move, and
/// nothing else that moves.
pub open spec fn moves_one(a: LowerV, b: LowerV, flow: FlowV) -> bool {
    b == (LowerV {
        p: ProgramV { flow: a.p.flow.push(flow), ..a.p },
        ..a
    })
}

/// `x = e` moves into the variable what `e` moves.
pub proof fn assignments_move_into_variables(s: LowerV, n: NodeV, i: int, j: int, v: VarId)
    requires
        is_assignment(n, i, j),
        n.children[i].kind == NodeKind::Identifier,
        s.lookup(text_of(s.src, n.children[i])) == Some(v),
    ensures
        match s.moved_into(n.children[j], v) {
            (t, Some(flow)) => moves_one(t, s.after_assignment(n), flow),
            (t, None) => s.after_assignment(n) == t,
        },
        s.after_expr(n, None) == s.after_assignment(n),
{
    assignment_parts(n, i, j);
}

/// `*p = q` stores the variable where the other points.
pub proof fn assignments_store_through_pointers(
    s: LowerV,
    n: NodeV,
    i: int,
    j: int,
    k: int,
    p: VarId,
    q: VarId,
)
    requires
        is_assignment(n, i, j),
        is_pointer_op(s.src, n.children[i], "*"@, k),
        n.children[i].children[k].kind == NodeKind::Identifier,
        s.lookup(text_of(s.src, n.children[i].children[k])) == Some(p),
        n.children[j].kind == NodeKind::Identifier,
        s.lookup(text_of(s.src, n.children[j])) == Some(q),
    ensures
        moves_one(s, s.after_assignment(n), FlowV::Store { dst: p, src: q }),
{
    assignment_parts(n, i, j);
    pointer_parts(s.src, n.children[i], "*"@, k);
}

/// `return e` adds to what the function returns what `e` returns, and changes
/// nothing else.
pub proof fn returns_are_noted(s: LowerV, n: NodeV, j: int, f: FnId)
    requires
        is_first_named(n, j),
        lacks_field(n, FieldName::Value),
        n.children[j].kind != NodeKind::Semicolon,
    ensures
        match s.returned_by(n.children[j], f) {
            (t, Some(flow)) => {
                let u = s.after_return(n, f);
                &&& returned(u.p.fn_returns, f.0, 0) is Some
                &&& returned(u.p.fn_returns, f.0, 0)->0.contains(flow)
                &&& u.p.flow == t.p.flow
                &&& u.p.symbols == t.p.symbols
            },
            (t, None) => s.after_return(n, f) == t,
        },
{
    field_missing(n, FieldName::Value);
    first_named_found(n, j);
    if let (t, Some(flow)) = s.returned_by(n.children[j], f) {
        return_is_held(t.p.fn_returns, f.0, flow, 0);
    }
}

proof fn return_is_held(table: Seq<(u32, Seq<ReturnV>)>, f: u32, flow: ReturnV, i: int)
    requires
        0 <= i <= table.len(),
    ensures
        ({
            let all = with_return(table, f, flow, i);
            &&& table.len() <= all.len()
            &&& forall|k: int| 0 <= k < i ==> #[trigger] all[k] == table[k]
            &&& returned(all, f, i) is Some
            &&& returned(all, f, i)->0.contains(flow)
        }),
    decreases table.len() - i,
{
    let all = with_return(table, f, flow, i);
    if i < table.len() && table[i].0 != f {
        return_is_held(table, f, flow, i + 1);
        assert(all[i] == table[i]);
    } else {
        let list = all[i].1;
        assert(list[list.len() - 1] == flow);
    }
}

/// A name that is returned and means a variable hands on what it holds.
pub proof fn returned_names_are_copies(s: LowerV, n: NodeV, f: FnId, v: VarId)
    requires
        n.kind == NodeKind::Identifier,
        s.p.symbols.resolve_in_scope(text_of(s.src, n), Some(s.file)) is None,
        s.lookup(text_of(s.src, n)) == Some(v),
    ensures
        s.returned_by(n, f) == (s, Some(ReturnV::Copy { src: v })),
{
}

/// A part of a variable, what it points to and its address all belong to the
/// variable: an expression with a field, an index or a pointer operator denotes
/// the storage of its operand, and its value comes from there.
pub proof fn parts_belong_to_their_variable(s: LowerV, n: NodeV, j: int)
    requires
        is_field_at(n, FieldName::Argument, j),
    ensures
        n.kind == NodeKind::FieldExpression || n.kind == NodeKind::SubscriptExpression
            ==> s.lvalue(n) == s.lvalue(n.children[j]) && s.value_var(n) == s.value_var(
            n.children[j],
        ),
        n.kind == NodeKind::PointerExpression ==> s.lvalue(n) == s.lvalue(n.children[j]),
        is_pointer_op(s.src, n, "&"@, j) ==> s.value_var(n) == s.lvalue(n.children[j]),
        is_pointer_op(s.src, n, "*"@, j) ==> s.value_var(n) == s.value_var(n.children[j]),
{
    field_found(n, FieldName::Argument, j);
    reveal_strlit("&");
    reveal_strlit("*");
    assert("&"@[0] == '&' && "*"@[0] == '*');
    if is_pointer_op(s.src, n, "&"@, j) {
        pointer_parts(s.src, n, "&"@, j);
    }
    if is_pointer_op(s.src, n, "*"@, j) {
        pointer_parts(s.src, n, "*"@, j);
    }
}

/// The name of a function, with or without an operator before it, passes the
/// function.
pub proof fn functions_are_passed_by_name(s: LowerV, n: NodeV, j: int)
    ensures
        n.kind == NodeKind::Identifier ==> s.fn_argument(n) == s.p.symbols.resolve_in_scope(
            text_of(s.src, n),
            Some(s.file),
        ),
        n.kind == NodeKind::PointerExpression && is_field_at(n, FieldName::Argument, j)
            ==> s.fn_argument(n) == s.fn_argument(n.children[j]),
{
    if is_field_at(n, FieldName::Argument, j) {
        field_found(n, FieldName::Argument, j);
    }
}

/// A call through `*p` calls what a call through `p` does; a call by the name of a
/// variable calls what it holds, and one by another name goes by that name.
pub proof fn callees_are_found_behind_operators(s: LowerV, n: NodeV, j: int)
    ensures
        n.kind == NodeKind::PointerExpression && is_first_named(n, j) ==> s.callee(n) == s.callee(
            n.children[j],
        ),
        n.kind == NodeKind::Identifier ==> s.callee(n).0 == text_of(s.src, n) && s.callee(n).2
            == s.lookup(text_of(s.src, n)),
        n.kind == NodeKind::Identifier && s.lookup(text_of(s.src, n)) is None ==> s.callee(n).1 == (
        s.p.symbols.resolve_in_scope(text_of(s.src, n), Some(s.file)) is Some),
        n.kind == NodeKind::SubscriptExpression && is_field_at(n, FieldName::Argument, j)
            ==> s.callee(n).2 == s.lvalue(n.children[j]),
{
    if is_first_named(n, j) {
        first_named_found(n, j);
    }
    if is_field_at(n, FieldName::Argument, j) {
        field_found(n, FieldName::Argument, j);
    }
}

/// In C++ `this` is of the class around, what `new` makes is of the class that it
/// names, and what a pointer points to is of the class of the pointer.
pub proof fn expressions_have_their_classes(s: LowerV, n: NodeV, j: int)
    ensures
        n.kind == NodeKind::This ==> s.static_class(n) == s.class,
        n.kind == NodeKind::NewExpression && 0 <= j < n.children.len() && n.children[j].kind
            == NodeKind::TypeIdentifier && (forall|k: int|
            0 <= k < j ==> !names_class(#[trigger] n.children[k])) ==> s.static_class(n) == Some(
            s.class_name(text_of(s.src, n.children[j])),
        ),
        n.kind == NodeKind::PointerExpression && is_first_named(n, j) && pointer_op(s.src, n)
            == Some("*"@) ==> s.static_class(n) == s.static_class(n.children[j]),
{
    if is_first_named(n, j) {
        first_named_found(n, j);
    }
    if n.kind == NodeKind::NewExpression && 0 <= j < n.children.len() && n.children[j].kind
        == NodeKind::TypeIdentifier && (forall|k: int|
        0 <= k < j ==> !names_class(#[trigger] n.children[k])) {
        class_is_found(n, 0, j);
    }
}

/// Whether a node can name a class.
pub open spec fn names_class(n: NodeV) -> bool {
    n.kind == NodeKind::QualifiedIdentifier || n.kind == NodeKind::TypeIdentifier || n.kind
        == NodeKind::TemplateType
}

proof fn class_is_found(n: NodeV, i: int, j: int)
    requires
        0 <= i <= j < n.children.len(),
        names_class(n.children[j]),
        forall|k: int| 0 <= k < j ==> !names_class(#[trigger] n.children[k]),
    ensures
        new_class_node(n, i) == Some(n.children[j]),
    decreases j - i,
{
    if i < j {
        assert(!names_class(n.children[i]));
        class_is_found(n, i + 1, j);
    }
}

/// Where a declaration gives a variable a value that is a name, the variable gets
/// what the name means.
pub proof fn first_values_move_into_variables(s: LowerV, n: NodeV, v: VarId)
    requires
        n.kind != NodeKind::AssignmentExpression,
        n.kind != NodeKind::InitializerList,
    ensures
        ({
            let (t, flow) = s.moved_into(n, v);
            match flow {
                Some(x) => s.after_expr(n, Some(v)).p.flow == t.p.flow.push(x),
                None => s.after_expr(n, Some(v)) == t,
            }
        }),
{
}

} // verus!
