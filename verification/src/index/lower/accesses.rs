//! What accesses to fields read and write.

use crate::index::lower::exprs::field_called;
use crate::index::lower::flows::{designated_value, designators};
use crate::index::lower::moves::{field_found, is_assignment, is_field_at};
use crate::index::lower::nodes::{access_chain, peeled, pointer_op};
use crate::index::lower::state::LowerV;
use crate::index::syntax::{text_of, FieldName, NodeKind, NodeV};
use crate::ir::flow::FlowV;
use crate::ir::ids::{FieldId, FnId, TypeId, VarId};
use crate::ir::layout::{fields_are_found_by_name, fields_are_numbered};
use crate::ir::types::{DescV, TableV};
use vstd::prelude::*;

verus! {

/// Whether the first field of a name that a type has is the one at `k`.
pub open spec fn has_field_at(types: TableV, t: TypeId, name: Seq<char>, k: u32) -> bool {
    &&& t.0 < types.types.len()
    &&& k < types.types[t.0 as int].fields.len()
    &&& types.types[t.0 as int].fields[k as int].name == name
    &&& forall|j: int|
        0 <= j < k ==> (#[trigger] types.types[t.0 as int].fields[j]).name != name
}

/// Whether a node is the access to a field of a variable: the children at `a` and
/// `j` are the names of the two, the variable is found, and the structure that it
/// is or points to has the field.
pub open spec fn is_access(
    s: LowerV,
    n: NodeV,
    a: int,
    j: int,
    v: VarId,
    name: Seq<char>,
    k: u32,
) -> bool {
    &&& n.kind == NodeKind::FieldExpression
    &&& is_field_at(n, FieldName::Argument, a)
    &&& is_field_at(n, FieldName::Field, j)
    &&& n.children[a].kind == NodeKind::Identifier
    &&& s.lookup(text_of(s.src, n.children[a])) == Some(v)
    &&& text_of(s.src, n.children[j]) == name
    &&& s.struct_of_var(v).1 is Some
    &&& has_field_at(s.struct_of_var(v).0.p.types, s.struct_of_var(v).1->0, name, k)
}

proof fn path_of_access(
    s: LowerV,
    n: NodeV,
    a: int,
    j: int,
    v: VarId,
    name: Seq<char>,
    k: u32,
)
    requires
        is_access(s, n, a, j, v, name, k),
    ensures
        s.field_path(n).1 == Some((v, seq![(FieldId(k), name)])),
        s.field_path(n).0.src == s.src,
        s.field_path(n).0.p.flow == s.p.flow,
        s.field_path(n).0.p.symbols == s.p.symbols,
        s.field_path(n).0.locals == s.locals,
        s.field_path(n).0.current_fn == s.current_fn,
        s.field_path(n).0.file == s.file,
{
    field_found(n, FieldName::Argument, a);
    field_found(n, FieldName::Field, j);
    let names = seq![name];
    let start = n.children[a];
    assert(access_chain(s.src, start) == Some((Seq::<Seq<char>>::empty(), start)));
    assert(Seq::<Seq<char>>::empty().push(name) =~= names);
    assert(access_chain(s.src, n) == Some((names, start)));
    assert(s.lvalue(start) == Some(v));
    struct_of_var_same(s, v);
    let (q, t) = s.struct_of_var(v);
    fields_are_found_by_name(q.p.types, t->0, name, 0);
    fields_are_numbered(q.p.types, t->0, k);
    let f = q.p.types.types[(t->0).0 as int].fields[k as int];
    assert(field_called(q.p.types, t->0, name) == Some((FieldId(k), f)));
    let (r, u) = q.pointee(f.type_id);
    let path = Seq::<(FieldId, Seq<char>)>::empty().push((FieldId(k), name));
    assert(r.fields_from(u, names, path, 1) == (r, Some(path)));
    assert(q.fields_from(t->0, names, Seq::empty(), 0) == (r, Some(path)));
    assert(path =~= seq![(FieldId(k), name)]);
}

proof fn struct_behind_same(s: LowerV, t: TypeId, k: nat)
    ensures
        ({
            let b = s.struct_behind(t, k).0;
            b == s.with_types(b.p.types)
        }),
    decreases k,
{
    if k > 0 {
        match s.p.types.desc(t) {
            Some(DescV::Ptr(inner)) => {
                struct_behind_same(s, s.p.types.resolved(*inner), (k - 1) as nat);
            },
            Some(DescV::Array { elem, size }) => {
                let types = s.p.types.interned(*elem);
                struct_behind_same(s.with_types(types), types.id_of(*elem), (k - 1) as nat);
            },
            _ => {},
        }
    }
}

proof fn struct_of_var_same(s: LowerV, v: VarId)
    ensures
        ({
            let b = s.struct_of_var(v).0;
            b == s.with_types(b.p.types)
        }),
{
    match s.p.symbols.variable(v) {
        Some(x) => {
            struct_behind_same(s, x.type_id, 4);
        },
        None => {},
    }
}

/// The structure behind a variable is the one that it is, or the one that it
/// points to.
pub proof fn structures_lie_behind_pointers(s: LowerV, v: VarId)
    requires
        s.p.symbols.variable(v) is Some,
    ensures
        ({
            let t = (s.p.symbols.variable(v)->0).type_id;
            match s.p.types.desc(t) {
                Some(DescV::Struct { name, fields }) => s.struct_of_var(v) == (s, Some(t)),
                Some(DescV::Ptr(inner)) => {
                    let u = s.p.types.resolved(*inner);
                    s.p.types.desc(u) matches Some(DescV::Struct { name, fields })
                        ==> s.struct_of_var(v) == (s, Some(u))
                },
                _ => true,
            }
        }),
{
    let t = (s.p.symbols.variable(v)->0).type_id;
    reveal_with_fuel(LowerV::struct_behind, 3);
}

proof fn one_step_path(s: LowerV, n: NodeV, base: VarId, step: (FieldId, Seq<char>))
    ensures
        ({
            let (b, g) = s.with_path(n, base, seq![step], 1);
            &&& b.p.flow == s.p.flow.push(
                FlowV::GepField { dst: g, base, field: step.0, field_name: step.1 },
            )
            &&& b.src == s.src
            &&& b.locals == s.locals
            &&& b.current_fn == s.current_fn
            &&& b.p.symbols.globals == s.p.symbols.globals
            &&& b.file == s.file
        }),
{
    assert(s.with_path(n, base, seq![step], 0) == (s, base));
}

/// To read a field of a variable is to go to the field and to load what stands
/// there.
pub proof fn fields_are_loaded(
    s: LowerV,
    n: NodeV,
    a: int,
    j: int,
    v: VarId,
    name: Seq<char>,
    k: u32,
    dst: VarId,
)
    requires
        is_access(s, n, a, j, v, name, k),
    ensures
        ({
            let (b, flow) = s.moved_into(n, dst);
            exists|g: VarId|
                flow == Some(FlowV::Load { dst, src: g }) && #[trigger] b.p.flow
                    == s.p.flow.push(
                    FlowV::GepField { dst: g, base: v, field: FieldId(k), field_name: name },
                )
        }),
{
    path_of_access(s, n, a, j, v, name, k);
    let (q, found) = s.field_path(n);
    one_step_path(q, n, v, (FieldId(k), name));
    let (b, g) = q.with_path(n, v, seq![(FieldId(k), name)], 1);
    assert(s.moved_into(n, dst) == (b, Some(FlowV::Load { dst, src: g })));
    assert(b.p.flow == s.p.flow.push(
        FlowV::GepField { dst: g, base: v, field: FieldId(k), field_name: name },
    ));
}

/// To take the address of a field of a variable is to go to the field.
pub proof fn addresses_of_fields_are_kept(
    s: LowerV,
    n: NodeV,
    a: int,
    j: int,
    v: VarId,
    name: Seq<char>,
    k: u32,
)
    requires
        is_access(s, n, a, j, v, name, k),
    ensures
        ({
            let (b, g) = s.field_address(n);
            &&& g is Some
            &&& b.p.flow == s.p.flow.push(
                FlowV::GepField { dst: g->0, base: v, field: FieldId(k), field_name: name },
            )
        }),
{
    path_of_access(s, n, a, j, v, name, k);
    let (q, found) = s.field_path(n);
    assert(peeled(n) == n);
    one_step_path(q, n, v, (FieldId(k), name));
}

/// To assign a variable to a field of a variable is to go to the field and to
/// store there what the variable holds.
pub proof fn fields_are_stored_to(
    s: LowerV,
    n: NodeV,
    l: int,
    r: int,
    a: int,
    j: int,
    v: VarId,
    name: Seq<char>,
    k: u32,
    w: VarId,
)
    requires
        is_assignment(n, l, r),
        is_access(s, n.children[l], a, j, v, name, k),
        n.children[r].kind == NodeKind::Identifier,
        s.current_fn is Some,
        s.locals.contains_key(text_of(s.src, n.children[r])),
        w == VarId(s.locals[text_of(s.src, n.children[r])]),
    ensures
        exists|g: VarId|
            (#[trigger] s.after_expr(n, None).p.flow) == s.p.flow.push(
                FlowV::GepField { dst: g, base: v, field: FieldId(k), field_name: name },
            ).push(FlowV::Store { dst: g, src: w }),
{
    field_found(n, FieldName::Left, l);
    field_found(n, FieldName::Right, r);
    let lhs = n.children[l];
    let rhs = n.children[r];
    path_of_access(s, lhs, a, j, v, name, k);
    assert(peeled(lhs) == lhs);
    assert(pointer_op(s.src, lhs) is None);
    let (q, found) = s.field_path(lhs);
    one_step_path(q, lhs, v, (FieldId(k), name));
    let (b, g) = q.with_path(lhs, v, seq![(FieldId(k), name)], 1);
    assert(b.lookup(text_of(b.src, rhs)) == Some(w));
    assert(b.store_source(rhs) == (b, Some(w)));
    assert(b.with_stored(lhs, g, rhs) == b.with_flow(FlowV::Store { dst: g, src: w }));
    assert(s.after_expr(n, None) == b.with_flow(FlowV::Store { dst: g, src: w }));
    assert(s.after_expr(n, None).p.flow == s.p.flow.push(
        FlowV::GepField { dst: g, base: v, field: FieldId(k), field_name: name },
    ).push(FlowV::Store { dst: g, src: w }));
}

/// Along a path of fields every step starts where the one before it ended, the
/// first at the variable.
pub proof fn paths_go_from_field_to_field(
    s: LowerV,
    n: NodeV,
    base: VarId,
    path: Seq<(FieldId, Seq<char>)>,
    k: int,
)
    requires
        0 <= k <= path.len(),
    ensures
        ({
            let (b, last) = s.with_path(n, base, path, k);
            exists|at: Seq<VarId>| #[trigger]
                is_way(s.p.flow, b.p.flow, at, path, k) && at[0] == base && at[k] == last
        }),
    decreases k,
{
    if k == 0 {
        assert(is_way(s.p.flow, s.p.flow, seq![base], path, 0));
    } else {
        paths_go_from_field_to_field(s, n, base, path, k - 1);
        let (q, cur) = s.with_path(n, base, path, k - 1);
        let (b, last) = s.with_path(n, base, path, k);
        let before = choose|at: Seq<VarId>| #[trigger]
            is_way(s.p.flow, q.p.flow, at, path, k - 1) && at[0] == base && at[k - 1] == cur;
        let at = before.push(last);
        assert(b.p.flow == q.p.flow.push(
            FlowV::GepField {
                dst: last,
                base: cur,
                field: path[k - 1].0,
                field_name: path[k - 1].1,
            },
        ));
        assert forall|i: int| 0 <= i < k implies #[trigger] is_step(
            b.p.flow,
            s.p.flow.len() + i,
            at,
            path,
            i,
        ) by {
            if i < k - 1 {
                assert(is_step(q.p.flow, s.p.flow.len() + i, before, path, i));
            }
        }
        assert(is_way(s.p.flow, b.p.flow, at, path, k));
    }
}

/// Whether a move goes along step `i` of a path.
pub open spec fn is_step(
    flow: Seq<FlowV>,
    m: int,
    at: Seq<VarId>,
    path: Seq<(FieldId, Seq<char>)>,
    i: int,
) -> bool {
    flow[m] == (FlowV::GepField {
        dst: at[i + 1],
        base: at[i],
        field: path[i].0,
        field_name: path[i].1,
    })
}

/// Whether the moves behind those that were there go along the first `k` steps of
/// a path.
pub open spec fn is_way(
    before: Seq<FlowV>,
    after: Seq<FlowV>,
    at: Seq<VarId>,
    path: Seq<(FieldId, Seq<char>)>,
    k: int,
) -> bool {
    &&& at.len() == k + 1
    &&& after.len() == before.len() + k
    &&& forall|i: int| 0 <= i < k ==> #[trigger] is_step(after, before.len() + i, at, path, i)
}

/// A call through a field of a variable calls what stands in the field.
pub proof fn callees_are_loaded_from_fields(
    s: LowerV,
    n: NodeV,
    a: int,
    j: int,
    v: VarId,
    name: Seq<char>,
    k: u32,
)
    requires
        is_access(s, n, a, j, v, name, k),
        s.struct_of_var(v).0.p.types == s.p.types,
        s.field_path(n).0.p.types == s.p.types,
    ensures
        ({
            let (b, (shown, sure, callee)) = s.loaded_callee(n);
            &&& !sure
            &&& callee is Some
            &&& exists|g: VarId|
                (#[trigger] b.p.flow) == s.p.flow.push(
                    FlowV::GepField { dst: g, base: v, field: FieldId(k), field_name: name },
                ).push(FlowV::Load { dst: callee->0, src: g })
        }),
{
    path_of_access(s, n, a, j, v, name, k);
    struct_of_var_same(s, v);
    assert(peeled(n) == n);
    let (q, found) = s.field_path(n);
    let path = seq![(FieldId(k), name)];
    assert(q.p.types == s.p.types && q.p.symbols == s.p.symbols);
    let t = s.struct_of_var(v).1->0;
    same_struct(s, q, v);
    let (r, u) = q.struct_of_var(v);
    assert(u == Some(t));
    struct_of_var_same(q, v);
    let g = r.next_var();
    let w = r.with_field_temp(n, v, FieldId(k), name);
    fields_are_numbered(w.p.types, t, k);
    assert(w.p.types.field(t, path[0].0) is Some);
    let (x, load) = w.with_load(n, g, w.int_type());
    let (b, (shown, sure, callee)) = s.loaded_callee(n);
    assert(b.p.flow == s.p.flow.push(
        FlowV::GepField {
            dst: g,
            base: v,
            field: FieldId(k),
            field_name: name,
        },
    ).push(FlowV::Load { dst: callee->0, src: g }));
}

proof fn same_struct(s: LowerV, q: LowerV, v: VarId)
    requires
        q.p.types == s.p.types,
        q.p.symbols == s.p.symbols,
    ensures
        q.struct_of_var(v).1 == s.struct_of_var(v).1,
        q.struct_of_var(v).0.p.types == s.struct_of_var(v).0.p.types,
{
    match s.p.symbols.variable(v) {
        Some(x) => {
            same_behind(s, q, x.type_id, 4);
        },
        None => {},
    }
}

proof fn same_behind(s: LowerV, q: LowerV, t: TypeId, k: nat)
    requires
        q.p.types == s.p.types,
    ensures
        q.struct_behind(t, k).1 == s.struct_behind(t, k).1,
        q.struct_behind(t, k).0.p.types == s.struct_behind(t, k).0.p.types,
    decreases k,
{
    if k > 0 {
        match s.p.types.desc(t) {
            Some(DescV::Ptr(inner)) => {
                same_behind(s, q, s.p.types.resolved(*inner), (k - 1) as nat);
            },
            Some(DescV::Array { elem, size }) => {
                let types = s.p.types.interned(*elem);
                same_behind(
                    s.with_types(types),
                    q.with_types(types),
                    types.id_of(*elem),
                    (k - 1) as nat,
                );
            },
            _ => {},
        }
    }
}

/// Where a name that means a function and no variable is stored, the address of
/// the function is stored.
pub proof fn functions_are_stored_by_address(
    s: LowerV,
    at: NodeV,
    dst: VarId,
    value: NodeV,
    f: FnId,
)
    requires
        value.kind == NodeKind::Identifier,
        s.lookup(text_of(s.src, value)) is None,
        s.p.symbols.resolve_in_scope(text_of(s.src, value), Some(s.file)) == Some(f),
    ensures
        exists|src: VarId|
            (#[trigger] s.with_stored(at, dst, value).p.flow) == s.p.flow.push(
                FlowV::AddrOfFn { dst: src, callee: f },
            ).push(FlowV::Store { dst, src }),
{
    let src = s.next_var();
    assert(s.store_source(value) == (s, None::<VarId>));
    assert(s.with_value_temp(at).p.flow == s.p.flow);
    assert(s.with_stored(at, dst, value).p.flow == s.p.flow.push(
        FlowV::AddrOfFn { dst: src, callee: f },
    ).push(FlowV::Store { dst, src }));
}

/// An initializer `.name = value` for a variable stores the value in the field of
/// that name.
pub proof fn designated_fields_are_stored_to(
    s: LowerV,
    n: NodeV,
    base: VarId,
    name: Seq<char>,
    value: NodeV,
    k: u32,
    w: VarId,
)
    requires
        designators(s.src, n, n.children.len() as int) == seq![name],
        designated_value(n, 0) == Some(value),
        value.kind == NodeKind::Identifier,
        s.current_fn is Some,
        s.locals.contains_key(text_of(s.src, value)),
        w == VarId(s.locals[text_of(s.src, value)]),
        s.struct_of_var(base).1 is Some,
        has_field_at(s.struct_of_var(base).0.p.types, s.struct_of_var(base).1->0, name, k),
    ensures
        exists|g: VarId|
            (#[trigger] s.after_designated(n, base).p.flow) == s.p.flow.push(
                FlowV::GepField { dst: g, base, field: FieldId(k), field_name: name },
            ).push(FlowV::Store { dst: g, src: w }),
{
    struct_of_var_same(s, base);
    let (q, t) = s.struct_of_var(base);
    let names = seq![name];
    fields_are_found_by_name(q.p.types, t->0, name, 0);
    fields_are_numbered(q.p.types, t->0, k);
    let f = q.p.types.types[(t->0).0 as int].fields[k as int];
    assert(field_called(q.p.types, t->0, name) == Some((FieldId(k), f)));
    let path = Seq::<(FieldId, Seq<char>)>::empty().push((FieldId(k), name));
    assert(q.designated_path(f.type_id, names, path, 1) == Some(path));
    assert(q.designated_path(t->0, names, Seq::empty(), 0) == Some(path));
    assert(path =~= seq![(FieldId(k), name)]);
    one_step_path(q, n, base, (FieldId(k), name));
    let (b, g) = q.with_path(n, base, seq![(FieldId(k), name)], 1);
    assert(b.lookup(text_of(b.src, value)) == Some(w));
    assert(b.store_source(value) == (b, Some(w)));
    assert(s.after_designated(n, base) == b.with_flow(FlowV::Store { dst: g, src: w }));
    assert(s.after_designated(n, base).p.flow == s.p.flow.push(
        FlowV::GepField { dst: g, base, field: FieldId(k), field_name: name },
    ).push(FlowV::Store { dst: g, src: w }));
}

/// Whether a part of a list of initializers is a value that names no field.
pub open spec fn stands_alone(n: NodeV) -> bool {
    &&& n.kind != NodeKind::InitializerPair
    &&& n.kind != NodeKind::DesignatedInitializer
    &&& n.kind != NodeKind::Comma
    &&& n.kind != NodeKind::OpenBrace
    &&& n.kind != NodeKind::CloseBrace
    &&& n.kind != NodeKind::OpenParen
    &&& n.kind != NodeKind::CloseParen
    &&& n.kind != NodeKind::Semicolon
}

/// The values of a list that name no field are counted, and nothing else is.
pub proof fn values_are_counted(s: LowerV, n: NodeV, base: VarId, names: Seq<Seq<char>>, k: int)
    requires
        0 <= k <= n.children.len(),
    ensures
        s.after_items(n, base, names, k).1 == n.children.take(k).filter(
            |c: NodeV| stands_alone(c),
        ).len(),
    decreases k,
{
    reveal(Seq::filter);
    if k > 0 {
        values_are_counted(s, n, base, names, k - 1);
        assert(n.children.take(k).drop_last() =~= n.children.take(k - 1));
        assert(n.children.take(k).last() == n.children[k - 1]);
    }
}

/// A value that names no field is stored in the field whose place in the structure
/// is the place of the value among the values of the list.
pub proof fn values_are_stored_in_order(
    s: LowerV,
    n: NodeV,
    base: VarId,
    k: int,
    t: TypeId,
    pos: u32,
    w: VarId,
)
    requires
        0 <= k < n.children.len(),
        n.children[k].kind == NodeKind::Identifier,
        s.struct_named_by(base) == Some(t),
        t.0 < s.p.types.types.len(),
        pos == n.children.take(k).filter(|c: NodeV| stands_alone(c)).len(),
        pos < s.p.types.types[t.0 as int].fields.len(),
        ({
            let b = s.after_items(n, base, s.positional_fields(base), k).0;
            &&& b.struct_named_by(base) == Some(t)
            &&& b.current_fn is Some
            &&& b.locals.contains_key(text_of(b.src, n.children[k]))
            &&& w == VarId(b.locals[text_of(b.src, n.children[k])])
            &&& has_field_at(
                b.p.types,
                t,
                s.p.types.types[t.0 as int].fields[pos as int].name,
                pos,
            )
        }),
    ensures
        ({
            let names = s.positional_fields(base);
            let field_name = s.p.types.types[t.0 as int].fields[pos as int].name;
            exists|g: VarId|
                (#[trigger] s.after_items(n, base, names, k + 1).0.p.flow) == s.after_items(
                    n,
                    base,
                    names,
                    k,
                ).0.p.flow.push(
                    FlowV::GepField { dst: g, base, field: FieldId(pos), field_name },
                ).push(FlowV::Store { dst: g, src: w })
        }),
{
    let names = s.positional_fields(base);
    let c = n.children[k];
    let name = s.p.types.types[t.0 as int].fields[pos as int].name;
    values_are_counted(s, n, base, names, k);
    let b = s.after_items(n, base, names, k).0;
    assert(s.after_items(n, base, names, k).1 == pos);
    assert(names[pos as int] == name);
    fields_are_found_by_name(b.p.types, t, name, 0);
    assert(b.field_for(base, name) == Some(FieldId(pos)));
    one_step_path(b, c, base, (FieldId(pos), name));
    let (q, g) = b.with_path(c, base, seq![(FieldId(pos), name)], 1);
    assert(q.lookup(text_of(q.src, c)) == Some(w));
    assert(q.store_source(c) == (q, Some(w)));
    assert(s.after_items(n, base, names, k + 1).0 == q.with_flow(FlowV::Store { dst: g, src: w }));
    assert(s.after_items(n, base, names, k + 1).0.p.flow == b.p.flow.push(
        FlowV::GepField { dst: g, base, field: FieldId(pos), field_name: name },
    ).push(FlowV::Store { dst: g, src: w }));
}

} // verus!
