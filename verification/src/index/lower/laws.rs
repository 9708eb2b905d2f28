//! Lowering keeps functions, and puts every call into one of them.

use crate::index::lower::calls::{no_args, ArgsV};
use crate::index::lower::decls::{constructor_args, last_named};
use crate::index::lower::exprs::field_called;
use crate::index::lower::flows::{
    assigned, assigned_value, designated_value, designated_value_smaller, designators,
};
use crate::index::lower::nodes::{
    access_chain, cast_operand, cast_operand_smaller, declared, fn_behind_pointers,
    function_declarator, is_designated, is_fn_pointer, is_virtual, pair_value, pair_value_smaller,
    parameters, peeled, peeled_not_larger, pointer_operand, short_name, static_from,
};
use crate::index::lower::state::{LowerV, PendV};
use crate::index::lower::unit::{is_unit_of, language_of, unit_of, unit_program, unit_start};
use crate::index::merge::UnitV;
use crate::index::parse::{tree_of, ParsedV};
use crate::index::references::{callers_are_there, is_function};
use crate::index::syntax::{
    child_field, child_kind, field_from_smaller, named_child, named_from_smaller, shaped, FieldName,
    NodeKind, NodeV,
};
use crate::ir::ids::{FieldId, FnId, Span, TypeId, VarId};
use crate::ir::program::{direct_bases, member_name, MethodV};
use crate::ir::symbol::{
    declared_is_there, fn_position, position_found, FnV, Linkage, SiteV, SymbolsV, VarV,
};
use crate::ir::types::DescV;
use crate::preproc::line_map::LineMapV;
use crate::preproc::run::ResultV;
use crate::preproc::state::ErrorV;
use crate::text::decimal_of;
use vstd::prelude::*;

verus! {

/// Whether nothing has happened to functions and calls, and every move of a
/// value is kept.
pub open spec fn quiet(a: LowerV, b: LowerV) -> bool {
    &&& b.p.symbols.functions == a.p.symbols.functions
    &&& b.p.symbols.call_sites == a.p.symbols.call_sites
    &&& b.current_fn == a.current_fn
    &&& moves_kept(a, b)
    &&& vars_kept(a, b)
    &&& same_text(a, b)
}

/// Whether every move of a value is kept.
pub open spec fn moves_kept(a: LowerV, b: LowerV) -> bool {
    &&& a.p.flow.len() <= b.p.flow.len()
    &&& forall|k: int| 0 <= k < a.p.flow.len() ==> (#[trigger] b.p.flow[k]) == a.p.flow[k]
}

/// Whether every variable is kept, but for the function that it is in.
pub open spec fn vars_kept(a: LowerV, b: LowerV) -> bool {
    &&& a.p.symbols.variables.len() <= b.p.symbols.variables.len()
    &&& forall|k: int|
        0 <= k < a.p.symbols.variables.len() ==> same_var(
            a.p.symbols.variables[k],
            #[trigger] b.p.symbols.variables[k],
        )
}

/// Whether two variables are alike but for the function that they are in.
pub open spec fn same_var(a: VarV, b: VarV) -> bool {
    b == (VarV { fn_id: b.fn_id, ..a })
}

/// Whether the text that is lowered, its file and its language are the same.
pub open spec fn same_text(a: LowerV, b: LowerV) -> bool {
    b.src == a.src && b.file == a.file && b.is_cpp == a.is_cpp
}

/// Whether every call is kept, but for the function that it is in.
pub open spec fn calls_kept(a: LowerV, b: LowerV) -> bool {
    &&& a.p.symbols.call_sites.len() <= b.p.symbols.call_sites.len()
    &&& forall|k: int|
        0 <= k < a.p.symbols.call_sites.len() ==> same_call(
            a.p.symbols.call_sites[k],
            #[trigger] b.p.symbols.call_sites[k],
        )
}

/// Whether two calls are of the same, with the same.
pub open spec fn same_call(a: SiteV, b: SiteV) -> bool {
    b == (SiteV { caller: b.caller, ..a })
}

/// Whether every call is in a function that is there.
pub open spec fn calls_in_functions(s: SymbolsV) -> bool {
    forall|k: int|
        0 <= k < s.call_sites.len() ==> is_function(s, (#[trigger] s.call_sites[k]).caller)
}

/// Whether one state of lowering comes after another: no function, call or move
/// of a value is lost, and every call is in a function if every call was.
pub open spec fn lowered_on(a: LowerV, b: LowerV) -> bool {
    &&& forall|f: FnId|
        is_function(a.p.symbols, f) ==> #[trigger] is_function(b.p.symbols, f)
    &&& calls_in_functions(a.p.symbols) ==> calls_in_functions(b.p.symbols)
    &&& b.current_fn == a.current_fn
    &&& calls_kept(a, b)
    &&& moves_kept(a, b)
    &&& vars_kept(a, b)
    &&& same_text(a, b)
}

/// Whether the function that is being lowered is there.
pub open spec fn in_a_function(s: LowerV) -> bool {
    match s.current_fn {
        Some(f) => is_function(s.p.symbols, f),
        None => true,
    }
}

proof fn same_functions(a: SymbolsV, b: SymbolsV)
    requires
        b.functions == a.functions,
    ensures
        forall|f: FnId| #[trigger] is_function(b, f) == is_function(a, f),
{
    assert forall|f: FnId| #[trigger] is_function(b, f) == is_function(a, f) by {
        if is_function(a, f) {
            let i = choose|i: int|
                0 <= i < a.functions.len() && (#[trigger] a.functions[i]).id == f;
            assert(b.functions[i].id == f);
        }
        if is_function(b, f) {
            let i = choose|i: int|
                0 <= i < b.functions.len() && (#[trigger] b.functions[i]).id == f;
            assert(a.functions[i].id == f);
        }
    }
}

pub proof fn quiet_on(a: LowerV, b: LowerV)
    requires
        quiet(a, b),
    ensures
        lowered_on(a, b),
{
    same_functions(a.p.symbols, b.p.symbols);
    if calls_in_functions(a.p.symbols) {
        assert forall|k: int| 0 <= k < b.p.symbols.call_sites.len() implies is_function(
            b.p.symbols,
            (#[trigger] b.p.symbols.call_sites[k]).caller,
        ) by {
            assert(is_function(a.p.symbols, a.p.symbols.call_sites[k].caller));
        }
    }
}

pub proof fn on_trans(a: LowerV, b: LowerV, c: LowerV)
    requires
        lowered_on(a, b),
        lowered_on(b, c),
    ensures
        lowered_on(a, c),
{
    assert forall|f: FnId| is_function(a.p.symbols, f) implies #[trigger] is_function(
        c.p.symbols,
        f,
    ) by {
        assert(is_function(b.p.symbols, f));
    }
}

proof fn struct_behind_quiet(s: LowerV, t: TypeId, k: nat)
    ensures
        quiet(s, s.struct_behind(t, k).0),
    decreases k,
{
    if k > 0 {
        match s.p.types.desc(t) {
            Some(DescV::Ptr(inner)) => {
                struct_behind_quiet(s, s.p.types.resolved(*inner), (k - 1) as nat);
            },
            Some(DescV::Array { elem, size }) => {
                let types = s.p.types.interned(*elem);
                struct_behind_quiet(s.with_types(types), types.id_of(*elem), (k - 1) as nat);
            },
            _ => {},
        }
    }
}

proof fn struct_of_var_quiet(s: LowerV, v: VarId)
    ensures
        quiet(s, s.struct_of_var(v).0),
{
    match s.p.symbols.variable(v) {
        Some(x) => {
            struct_behind_quiet(s, x.type_id, 4);
        },
        None => {},
    }
}

proof fn fields_from_quiet(
    s: LowerV,
    t: TypeId,
    names: Seq<Seq<char>>,
    path: Seq<(FieldId, Seq<char>)>,
    i: int,
)
    ensures
        quiet(s, s.fields_from(t, names, path, i).0),
    decreases names.len() - i,
{
    if i < 0 || i >= names.len() {
    } else {
        match field_called(s.p.types, t, names[i]) {
            Some((id, f)) => {
                let (q, u) = s.pointee(f.type_id);
                fields_from_quiet(q, u, names, path.push((id, names[i])), i + 1);
            },
            None => {},
        }
    }
}

proof fn field_path_quiet(s: LowerV, n: NodeV)
    ensures
        quiet(s, s.field_path(n).0),
{
    match access_chain(s.src, peeled(n)) {
        Some((names, start)) => {
            match s.lvalue(start) {
                Some(base) => {
                    struct_of_var_quiet(s, base);
                    match s.struct_of_var(base) {
                        (q, Some(t)) => {
                            fields_from_quiet(q, t, names, Seq::empty(), 0);
                        },
                        _ => {},
                    }
                },
                None => {},
            }
        },
        None => {},
    }
}

proof fn with_path_quiet(
    s: LowerV,
    n: NodeV,
    base: VarId,
    path: Seq<(FieldId, Seq<char>)>,
    k: int,
)
    ensures
        quiet(s, s.with_path(n, base, path, k).0),
    decreases k,
{
    if k > 0 {
        with_path_quiet(s, n, base, path, k - 1);
    }
}

proof fn field_address_quiet(s: LowerV, n: NodeV)
    ensures
        quiet(s, s.field_address(n).0),
{
    let e = peeled(n);
    field_path_quiet(s, e);
    match s.field_path(e) {
        (q, Some((base, path))) => {
            with_path_quiet(q, e, base, path, path.len() as int);
        },
        _ => {},
    }
}

proof fn store_source_quiet(s: LowerV, n: NodeV)
    ensures
        quiet(s, s.store_source(n).0),
{
    match pointer_operand(n) {
        Some(a) => {
            field_address_quiet(s, a);
        },
        None => {},
    }
}

proof fn moved_into_quiet(s: LowerV, n: NodeV, dst: VarId)
    ensures
        quiet(s, s.moved_into(n, dst).0),
    decreases n,
{
    if n.kind == NodeKind::PointerExpression {
        match pointer_operand(n) {
            Some(a) => {
                field_address_quiet(s, a);
            },
            None => {},
        }
    } else if n.kind == NodeKind::CastExpression {
        match cast_operand(n) {
            Some(a) => {
                cast_operand_smaller(n);
                moved_into_quiet(s, a, dst);
            },
            None => {},
        }
    } else if n.kind == NodeKind::ParenthesizedExpression {
        match named_child(n, 0) {
            Some(a) => {
                named_from_smaller(n, 0, 0);
                moved_into_quiet(s, a, dst);
            },
            None => {},
        }
    } else if n.kind == NodeKind::FieldExpression {
        field_path_quiet(s, n);
        match s.field_path(n) {
            (q, Some((base, path))) => {
                with_path_quiet(q, n, base, path, path.len() as int);
            },
            _ => {},
        }
    }
}

proof fn with_loads_quiet(
    s: LowerV,
    n: NodeV,
    path: Seq<(FieldId, Seq<char>)>,
    cur: VarId,
    t: TypeId,
    i: int,
)
    ensures
        quiet(s, s.with_loads(n, path, cur, t, i).0),
    decreases path.len() - i,
{
    if i < 0 || i >= path.len() {
    } else {
        let gep = s.next_var();
        let q = s.with_field_temp(n, cur, path[i].0, path[i].1);
        match q.p.types.field(t, path[i].0) {
            Some(f) => {
                match q.p.types.desc(f.type_id) {
                    Some(DescV::Ptr(inner)) => {
                        let (u, load) = q.with_load(n, gep, f.type_id);
                        with_loads_quiet(u, n, path, load, u.p.types.resolved(*inner), i + 1);
                    },
                    _ => {
                        with_loads_quiet(q, n, path, gep, f.type_id, i + 1);
                    },
                }
            },
            None => {},
        }
    }
}

pub proof fn loaded_callee_quiet(s: LowerV, n: NodeV)
    ensures
        quiet(s, s.loaded_callee(n).0),
{
    let e = peeled(n);
    field_path_quiet(s, e);
    match s.field_path(e) {
        (q, Some((base, path))) => {
            struct_of_var_quiet(q, base);
            match q.struct_of_var(base) {
                (u, Some(t)) => {
                    with_loads_quiet(u, e, path, base, t, 0);
                },
                _ => {},
            }
        },
        _ => {},
    }
}

proof fn with_stored_quiet(s: LowerV, at: NodeV, dst: VarId, value: NodeV)
    ensures
        quiet(s, s.with_stored(at, dst, value)),
{
    store_source_quiet(s, value);
    match s.store_source(value) {
        (q, None) => {
            moved_into_quiet(q.with_value_temp(at), value, q.next_var());
        },
        _ => {},
    }
}

proof fn with_field_value_quiet(
    s: LowerV,
    at: NodeV,
    base: VarId,
    path: Seq<(FieldId, Seq<char>)>,
    value: NodeV,
)
    ensures
        quiet(s, s.with_field_value(at, base, path, value)),
{
    if path.len() > 0 {
        let (q, dst) = s.with_path(at, base, path, path.len() as int);
        with_path_quiet(s, at, base, path, path.len() as int);
        with_stored_quiet(q, at, dst, value);
    }
}

#[verifier::rlimit(60)]
proof fn after_assignment_quiet(s: LowerV, n: NodeV)
    ensures
        quiet(s, s.after_assignment(n)),
{
    match (assigned(n), assigned_value(n)) {
        (Some(l), Some(rhs)) => {
            let lhs = peeled(l);
            store_source_quiet(s, rhs);
            field_path_quiet(s, lhs);
            match s.field_path(lhs) {
                (q, Some((base, path))) => {
                    with_field_value_quiet(q, lhs, base, path, rhs);
                },
                _ => {},
            }
            match s.lvalue(lhs) {
                Some(dst) => {
                    moved_into_quiet(s, rhs, dst);
                },
                None => {},
            }
        },
        _ => {},
    }
}

proof fn with_designated_quiet(
    s: LowerV,
    n: NodeV,
    names: Seq<Seq<char>>,
    cur: VarId,
    t: TypeId,
    i: int,
)
    ensures
        quiet(s, s.with_designated(n, names, cur, t, i).0),
    decreases names.len() - i,
{
    if i < 0 || i >= names.len() {
    } else {
        match field_called(s.p.types, t, names[i]) {
            Some((id, f)) => {
                let (q, u) = s.with_field_temp(n, cur, id, names[i]).pointee(f.type_id);
                with_designated_quiet(q, n, names, s.next_var(), u, i + 1);
            },
            None => {},
        }
    }
}

proof fn after_list_quiet(s: LowerV, n: NodeV, base: VarId)
    ensures
        quiet(s, s.after_list(n, base)),
    decreases n, 1int, 0int,
{
    after_items_quiet(s, n, base, s.positional_fields(base), n.children.len() as int);
}

proof fn after_items_quiet(
    s: LowerV,
    n: NodeV,
    base: VarId,
    names: Seq<Seq<char>>,
    k: int,
)
    ensures
        quiet(s, s.after_items(n, base, names, k).0),
    decreases n, 0int, k,
{
    if k <= 0 || k > n.children.len() {
    } else {
        after_items_quiet(s, n, base, names, k - 1);
        let (q, pos) = s.after_items(n, base, names, k - 1);
        let c = n.children[k - 1];
        if is_designated(c) {
            after_designated_quiet(q, c, base);
        } else if pos < names.len() {
            match q.field_for(base, names[pos as int]) {
                Some(id) => {
                    with_field_value_quiet(q, c, base, seq![(id, names[pos as int])], c);
                },
                None => {},
            }
        }
    }
}

proof fn after_designated_quiet(s: LowerV, n: NodeV, base: VarId)
    ensures
        quiet(s, s.after_designated(n, base)),
    decreases n, 0int, 0int,
{
    let names = designators(s.src, n, n.children.len() as int);
    match designated_value(n, 0) {
        Some(value) => {
            struct_of_var_quiet(s, base);
            match s.struct_of_var(base) {
                (q, Some(t)) => {
                    if value.kind == NodeKind::InitializerList {
                        designated_value_smaller(n, 0);
                        with_designated_quiet(q, n, names, base, t, 0);
                        match q.with_designated(n, names, base, t, 0) {
                            (u, Some(cur)) => {
                                after_list_quiet(u, value, cur);
                            },
                            _ => {},
                        }
                    } else {
                        match q.designated_path(t, names, Seq::empty(), 0) {
                            Some(path) => {
                                with_field_value_quiet(q, n, base, path, value);
                            },
                            None => {},
                        }
                    }
                },
                _ => {},
            }
        },
        None => {},
    }
}

pub proof fn after_expr_quiet(s: LowerV, n: NodeV, target: Option<VarId>)
    ensures
        quiet(s, s.after_expr(n, target)),
    decreases n, 1int, 0int,
{
    if n.kind == NodeKind::AssignmentExpression {
        after_assignment_quiet(s, n);
    } else {
        match target {
            Some(dst) => {
                if n.kind == NodeKind::InitializerList {
                    after_list_quiet(s, n, dst);
                } else {
                    moved_into_quiet(s, n, dst);
                }
            },
            None => {
                after_parts_quiet(s, n, n.children.len() as int);
            },
        }
    }
}

proof fn after_parts_quiet(s: LowerV, n: NodeV, k: int)
    ensures
        quiet(s, s.after_parts(n, k)),
    decreases n, 0int, k,
{
    if k <= 0 || k > n.children.len() {
    } else {
        after_parts_quiet(s, n, k - 1);
        after_expr_quiet(s.after_parts(n, k - 1), n.children[k - 1], None);
    }
}

proof fn returned_by_quiet(s: LowerV, n: NodeV, f: FnId)
    ensures
        quiet(s, s.returned_by(n, f).0),
    decreases n,
{
    let e = peeled(n);
    if e.kind == NodeKind::PointerExpression {
        match pointer_operand(e) {
            Some(a) => {
                field_address_quiet(s, a);
            },
            None => {},
        }
    } else if e.kind == NodeKind::CastExpression {
        match cast_operand(e) {
            Some(a) => {
                peeled_not_larger(n);
                cast_operand_smaller(e);
                returned_by_quiet(s, a, f);
            },
            None => {},
        }
    }
}

proof fn after_return_quiet(s: LowerV, n: NodeV, f: FnId)
    ensures
        quiet(s, s.after_return(n, f)),
{
    let value = match child_field(n, FieldName::Value) {
        Some(v) => Some(v),
        None => named_child(n, 0),
    };
    match value {
        Some(v) => {
            returned_by_quiet(s, v, f);
        },
        None => {},
    }
}

pub proof fn after_args_quiet(s: LowerV, n: NodeV, k: int)
    ensures
        quiet(s, s.after_args(n, k).0),
    decreases k,
{
    if k > 0 {
        after_args_quiet(s, n, k - 1);
        let q = s.after_args(n, k - 1).0;
        let arg = n.children[k - 1];
        moved_into_quiet(q.with_value_temp(arg), arg, q.next_var());
    }
}

pub proof fn after_all_args_quiet(s: LowerV, n: Option<NodeV>)
    ensures
        quiet(s, s.after_all_args(n).0),
{
    match n {
        Some(list) => {
            after_args_quiet(s, list, list.children.len() as int);
        },
        None => {},
    }
}

proof fn with_clause_quiet(s: LowerV, clause: NodeV, derived: Seq<char>, k: int)
    ensures
        quiet(s, s.with_clause(clause, derived, k)),
    decreases k,
{
    if k > 0 {
        with_clause_quiet(s, clause, derived, k - 1);
    }
}

proof fn with_bases_quiet(s: LowerV, n: NodeV, derived: Seq<char>, k: int)
    ensures
        quiet(s, s.with_bases(n, derived, k)),
    decreases k,
{
    if k > 0 {
        with_bases_quiet(s, n, derived, k - 1);
        let c = n.children[k - 1];
        with_clause_quiet(
            s.with_bases(n, derived, k - 1),
            c,
            derived,
            c.children.len() as int,
        );
    }
}

proof fn after_struct_quiet(s: LowerV, n: NodeV)
    ensures
        quiet(s, s.after_struct(n).0),
    decreases n, 1int, 0int,
{
    let (s0, tag) = s.tag_state(n);
    let s1 = if n.kind == NodeKind::ClassSpecifier {
        with_bases_quiet(s0, n, tag, n.children.len() as int);
        s0.with_bases(n, tag, n.children.len() as int)
    } else {
        s0
    };
    match child_field(n, FieldName::Body) {
        Some(body) => {
            field_from_smaller(n, FieldName::Body, 0);
            after_fields_quiet(s1, body, body.children.len() as int);
        },
        None => {},
    }
}

pub proof fn after_fields_quiet(s: LowerV, body: NodeV, k: int)
    ensures
        quiet(s, s.after_fields(body, k).0),
    decreases body, 0int, k,
{
    if k <= 0 || k > body.children.len() {
    } else {
        after_fields_quiet(s, body, k - 1);
        after_field_quiet(s.after_fields(body, k - 1).0, body.children[k - 1]);
    }
}

pub proof fn after_field_quiet(s: LowerV, n: NodeV)
    ensures
        quiet(s, s.after_field(n).0),
    decreases n, 0int, 0int,
{
    match child_field(n, FieldName::Type) {
        Some(t) => {
            field_from_smaller(n, FieldName::Type, 0);
            after_type_quiet(s, t);
        },
        None => {},
    }
}

pub proof fn after_type_quiet(s: LowerV, n: NodeV)
    ensures
        quiet(s, s.after_type(n).0),
    decreases n, 2int, 0int,
{
    after_struct_quiet(s, n);
}

proof fn after_typedef_quiet(s: LowerV, n: NodeV)
    ensures
        quiet(s, s.after_typedef(n)),
{
    match child_field(n, FieldName::Type) {
        Some(t) => {
            after_struct_quiet(s, t);
            after_type_quiet(s, t);
        },
        None => {},
    }
}

pub proof fn after_params_quiet(s: LowerV, n: NodeV, f: FnId, params: Seq<VarId>, k: int)
    ensures
        quiet(s, s.after_params(n, f, params, k).0),
    decreases k,
{
    if k > 0 {
        after_params_quiet(s, n, f, params, k - 1);
        let q = s.after_params(n, f, params, k - 1).0;
        match child_field(n.children[k - 1], FieldName::Type) {
            Some(t) => {
                after_type_quiet(q, t);
            },
            None => {},
        }
    }
}

pub proof fn after_all_params_quiet(s: LowerV, decl: NodeV, f: FnId, params: Seq<VarId>)
    ensures
        quiet(s, s.after_all_params(decl, f, params).0),
{
    match parameters(decl) {
        Some(list) => {
            after_params_quiet(s, list, f, params, list.children.len() as int);
        },
        None => {},
    }
}

proof fn with_array_members_quiet(s: LowerV, array: VarId, n: NodeV)
    ensures
        quiet(s, s.with_array_members(array, n)),
    decreases n, 1int, 0int,
{
    with_array_parts_quiet(s, array, n, n.children.len() as int);
}

proof fn with_array_parts_quiet(s: LowerV, array: VarId, n: NodeV, k: int)
    ensures
        quiet(s, s.with_array_parts(array, n, k)),
    decreases n, 0int, k,
{
    if k <= 0 || k > n.children.len() {
    } else {
        with_array_parts_quiet(s, array, n, k - 1);
        let q = s.with_array_parts(array, n, k - 1);
        let c = n.children[k - 1];
        if c.kind == NodeKind::InitializerList {
            with_array_members_quiet(q, array, c);
        } else if is_designated(c) {
            match pair_value(c, c.children.len() as int) {
                Some(value) => {
                    pair_value_smaller(c, c.children.len() as int);
                    with_array_members_quiet(q, array, value);
                },
                None => {},
            }
        }
    }
}

pub proof fn after_initial_quiet(s: LowerV, v: VarId, t: TypeId, decl: NodeV, init: NodeV)
    ensures
        quiet(s, s.after_initial(v, t, decl, init)),
{
    with_array_members_quiet(s, v, init);
    after_expr_quiet(s.with_array_members(v, init), init, Some(v));
    after_expr_quiet(s, init, Some(v));
}

proof fn pointer_to_quiet(s: LowerV, t: TypeId, k: u32)
    ensures
        quiet(s, s.pointer_to(t, k).0),
    decreases k,
{
    if k > 0 {
        pointer_to_quiet(s, t, (k - 1) as u32);
    }
}

pub proof fn deduced_quiet(s: LowerV, type_node: NodeV, t: TypeId, init: Option<NodeV>)
    ensures
        quiet(s, s.deduced(type_node, t, init).0),
{
    match init {
        Some(e) => {
            match s.new_class(e) {
                Some(cls) => {
                    let d = DescV::Struct { name: cls, fields: Seq::empty() };
                    let types = s.p.types.interned(d);
                    pointer_to_quiet(s.with_types(types), types.id_of(d), 1);
                },
                None => {},
            }
        },
        None => {},
    }
}

proof fn settled_quiet(s: LowerV, list: Seq<PendV>, n: int)
    ensures
        quiet(s, s.after_pendings(list, n)),
    decreases n,
{
    if n > 0 {
        settled_quiet(s, list, n - 1);
    }
}

/// One more call, in a function that is there.
proof fn with_site_on(
    s: LowerV,
    caller: FnId,
    name: Seq<char>,
    callee_var: Option<VarId>,
    callee_fn_id: Option<FnId>,
    args: ArgsV,
    span: Span,
    is_direct: bool,
)
    requires
        is_function(s.p.symbols, caller),
    ensures
        lowered_on(s, s.with_site(caller, name, callee_var, callee_fn_id, args, span, is_direct)),
{
    let b = s.with_site(caller, name, callee_var, callee_fn_id, args, span, is_direct);
    same_functions(s.p.symbols, b.p.symbols);
    if calls_in_functions(s.p.symbols) {
        assert forall|k: int| 0 <= k < b.p.symbols.call_sites.len() implies is_function(
            b.p.symbols,
            (#[trigger] b.p.symbols.call_sites[k]).caller,
        ) by {
            if k < s.p.symbols.call_sites.len() {
                assert(b.p.symbols.call_sites[k] == s.p.symbols.call_sites[k]);
                assert(is_function(s.p.symbols, s.p.symbols.call_sites[k].caller));
            }
        }
    }
}

proof fn with_member_sites_on(
    s: LowerV,
    caller: FnId,
    display: Seq<char>,
    targets: Seq<FnId>,
    args: ArgsV,
    span: Span,
    k: int,
)
    requires
        is_function(s.p.symbols, caller),
    ensures
        lowered_on(s, s.with_member_sites(caller, display, targets, args, span, k)),
    decreases k,
{
    quiet_on(s, s);
    if k > 0 {
        with_member_sites_on(s, caller, display, targets, args, span, k - 1);
        let q = s.with_member_sites(caller, display, targets, args, span, k - 1);
        let name = match s.p.symbols.function(targets[k - 1]) {
            Some(f) => f.name,
            None => display,
        };
        with_site_on(q, caller, name, None, Some(targets[k - 1]), args, span, true);
        on_trans(s, q, s.with_member_sites(caller, display, targets, args, span, k));
    }
}

proof fn with_member_call_on(
    s: LowerV,
    caller: FnId,
    cls: Seq<char>,
    kind: MethodV,
    args: ArgsV,
    span: Span,
)
    requires
        is_function(s.p.symbols, caller),
    ensures
        lowered_on(s, s.with_member_call(caller, cls, kind, args, span)),
{
    let targets = s.p.member_targets(cls, kind);
    let display = member_name(kind, cls);
    if targets.len() == 0 {
        with_site_on(s, caller, display, None, None, args, span, false);
    } else {
        with_member_sites_on(s, caller, display, targets, args, span, targets.len() as int);
    }
}

pub proof fn with_named_sites_on(
    s: LowerV,
    caller: FnId,
    name: Seq<char>,
    callee_var: Option<VarId>,
    chosen: Seq<FnId>,
    args: ArgsV,
    span: Span,
    k: int,
)
    requires
        is_function(s.p.symbols, caller),
    ensures
        lowered_on(s, s.with_named_sites(caller, name, callee_var, chosen, args, span, k)),
    decreases k,
{
    quiet_on(s, s);
    if k > 0 {
        with_named_sites_on(s, caller, name, callee_var, chosen, args, span, k - 1);
        let q = s.with_named_sites(caller, name, callee_var, chosen, args, span, k - 1);
        let t = chosen[k - 1];
        let shown = if t != chosen[0] {
            name + "::"@ + decimal_of(t.0 as nat)
        } else {
            name
        };
        with_site_on(q, caller, shown, callee_var, Some(t), args, span, true);
        on_trans(s, q, s.with_named_sites(caller, name, callee_var, chosen, args, span, k));
    }
}

proof fn after_plain_call_on(
    s: LowerV,
    n: NodeV,
    func: NodeV,
    caller: FnId,
    span: Span,
)
    requires
        is_function(s.p.symbols, caller),
    ensures
        lowered_on(s, s.after_plain_call(n, func, caller, span)),
{
    let (q, (name, sure, callee_var)) = s.loaded_callee(func);
    loaded_callee_quiet(s, func);
    quiet_on(s, q);
    let list = child_field(n, FieldName::Arguments);
    let (t, args) = q.after_all_args(list);
    after_all_args_quiet(q, list);
    quiet_on(s, t);
    assert(is_function(t.p.symbols, caller));
    let is_direct = sure || (callee_var is None && q.named_fn(name) is Some);
    let chosen = t.chosen(name, callee_var, args);
    with_site_on(t, caller, name, callee_var, None, args, span, is_direct);
    with_named_sites_on(t, caller, name, callee_var, chosen, args, span, chosen.len() as int);
    on_trans(s, t, t.with_site(caller, name, callee_var, None, args, span, is_direct));
    on_trans(
        s,
        t,
        t.with_named_sites(caller, name, callee_var, chosen, args, span, chosen.len() as int),
    );
}

/// The call of a member whose arguments come first.
proof fn member_call_on(
    s: LowerV,
    q: LowerV,
    list: Option<NodeV>,
    caller: FnId,
    cls: Seq<char>,
    kind: MethodV,
    span: Span,
)
    requires
        quiet(s, q),
        is_function(s.p.symbols, caller),
    ensures
        ({
            let (t, args) = q.after_all_args(list);
            lowered_on(s, t.with_member_call(caller, cls, kind, args, span))
        }),
{
    let (t, args) = q.after_all_args(list);
    after_all_args_quiet(q, list);
    quiet_on(s, t);
    assert(is_function(t.p.symbols, caller));
    with_member_call_on(t, caller, cls, kind, args, span);
    on_trans(s, t, t.with_member_call(caller, cls, kind, args, span));
}

pub proof fn after_call_on(s: LowerV, n: NodeV, caller: FnId)
    requires
        is_function(s.p.symbols, caller),
    ensures
        lowered_on(s, s.after_call(n, caller)),
{
    quiet_on(s, s);
    match child_field(n, FieldName::Function) {
        Some(func) => {
            let (q, span) = s.placed(n);
            quiet_on(s, q);
            match q.member_called(func) {
                Some((cls, kind)) => {
                    member_call_on(
                        s,
                        q,
                        child_field(n, FieldName::Arguments),
                        caller,
                        cls,
                        kind,
                        span,
                    );
                },
                None => {
                    assert(is_function(q.p.symbols, caller));
                    after_plain_call_on(q, n, func, caller, span);
                    on_trans(s, q, q.after_plain_call(n, func, caller, span));
                },
            }
        },
        None => {},
    }
}

proof fn after_initializers_on(
    s: LowerV,
    n: NodeV,
    bases: Seq<Seq<char>>,
    cls_type: Option<TypeId>,
    caller: FnId,
    k: int,
)
    requires
        is_function(s.p.symbols, caller),
    ensures
        lowered_on(s, s.after_initializers(n, bases, cls_type, caller, k)),
    decreases k,
{
    quiet_on(s, s);
    if k > 0 {
        after_initializers_on(s, n, bases, cls_type, caller, k - 1);
        let q = s.after_initializers(n, bases, cls_type, caller, k - 1);
        let b = s.after_initializers(n, bases, cls_type, caller, k);
        let fi = n.children[k - 1];
        quiet_on(q, q);
        match q.initialized_class(fi, bases, cls_type) {
            Some(cls) => {
                let (t, span) = q.placed(fi);
                assert(is_function(q.p.symbols, caller));
                member_call_on(
                    q,
                    t,
                    child_kind(fi, NodeKind::ArgumentList),
                    caller,
                    cls,
                    MethodV::Ctor,
                    span,
                );
            },
            None => {},
        }
        on_trans(s, q, b);
    }
}

proof fn after_initializer_list_on(s: LowerV, n: NodeV, caller: FnId)
    requires
        is_function(s.p.symbols, caller),
    ensures
        lowered_on(s, s.after_initializer_list(n, caller)),
{
    quiet_on(s, s);
    match s.class {
        Some(cls) => {
            after_initializers_on(
                s,
                n,
                direct_bases(
                    s.p.inheritance,
                    cls,
                    s.p.inheritance.len() as int,
                ),
                s.tagged(cls),
                caller,
                n.children.len() as int,
            );
        },
        None => {},
    }
}

pub proof fn after_construction_on(s: LowerV, at: NodeV, t: TypeId, init: Option<NodeV>)
    requires
        in_a_function(s),
    ensures
        lowered_on(s, s.after_construction(at, t, init)),
{
    quiet_on(s, s);
    match (s.current_fn, constructor_args(at, init), s.constructed(t)) {
        (Some(f), Some(list), Some(cls)) => {
            let (q, span) = s.placed(at);
            member_call_on(s, q, Some(list), f, cls, MethodV::Ctor, span);
        },
        _ => {},
    }
}

/// One more function, or one more declaration of a function.
pub proof fn with_fn_on(s: LowerV, f: FnV)
    ensures
        lowered_on(s, s.with_fn(f).0),
        is_function(s.with_fn(f).0.p.symbols, s.with_fn(f).1),
{
    let a = s.p.symbols;
    let (t, id) = s.with_fn(f);
    let b = t.p.symbols;
    declared_is_there(a, f);
    assert(a.functions.len() <= b.functions.len());
    assert forall|i: int| 0 <= i < a.functions.len() implies (#[trigger] b.functions[i]).id
        == a.functions[i].id by {}
    assert forall|g: FnId| is_function(a, g) implies #[trigger] is_function(b, g) by {
        let i = choose|i: int| 0 <= i < a.functions.len() && (#[trigger] a.functions[i]).id == g;
        assert(b.functions[i].id == g);
    }
    assert(is_function(b, id)) by {
        if b.functions.len() == a.functions.len() {
            assert(b.functions[fn_position(a.functions, id, 0)].id == id);
        } else {
            assert(b.functions[a.functions.len() as int].id == id);
        }
    }
    if calls_in_functions(a) {
        assert forall|j: int| 0 <= j < b.call_sites.len() implies is_function(
            b,
            (#[trigger] b.call_sites[j]).caller,
        ) by {
            assert(is_function(a, a.call_sites[j].caller));
        }
    }
}

pub proof fn with_owner_on(s: LowerV, f: FnV)
    ensures
        lowered_on(s, s.with_owner(f).0),
        is_function(s.with_owner(f).0.p.symbols, s.with_owner(f).1),
{
    with_fn_on(s, f);
    let (q, id) = s.with_fn(f);
    let b = s.with_owner(f).0;
    let u = q.p.symbols;
    let w = b.p.symbols;
    position_found(u.functions, id, 0);
    assert forall|i: int| 0 <= i < u.functions.len() implies (#[trigger] w.functions[i]).id
        == u.functions[i].id by {}
    assert forall|g: FnId| is_function(u, g) implies #[trigger] is_function(w, g) by {
        let i = choose|i: int| 0 <= i < u.functions.len() && (#[trigger] u.functions[i]).id == g;
        assert(w.functions[i].id == g);
    }
    if calls_in_functions(u) {
        assert forall|j: int| 0 <= j < w.call_sites.len() implies is_function(
            w,
            (#[trigger] w.call_sites[j]).caller,
        ) by {
            assert(is_function(u, u.call_sites[j].caller));
        }
    }
    assert(lowered_on(q, b));
    on_trans(s, q, b);
}

proof fn after_fn_decl_on(s: LowerV, decl: NodeV, return_type: TypeId, is_static: bool)
    ensures
        lowered_on(s, s.after_fn_decl(decl, return_type, is_static)),
{
    quiet_on(s, s);
    let name = declared(s.src, decl).0;
    if name.len() > 0 {
        let id = s.next_fn();
        let (q, params) = s.with_fn_id().after_all_params(decl, id, Seq::empty());
        after_all_params_quiet(s.with_fn_id(), decl, id, Seq::empty());
        let (t, span) = q.placed(decl);
        quiet_on(s, t);
        let f = FnV {
            id,
            name,
            linkage: if is_static {
                Linkage::Internal
            } else {
                Linkage::External
            },
            return_type,
            params,
            locals: Seq::empty(),
            span,
            file: s.file,
            is_defined: false,
            is_virtual: false,
            is_cpp: s.is_cpp,
        };
        with_owner_on(t, f);
        on_trans(s, t, t.with_owner(f).0);
    }
}

proof fn after_declarator_on(
    s: LowerV,
    at: NodeV,
    decl: NodeV,
    t: TypeId,
    is_static: bool,
    init: Option<NodeV>,
)
    requires
        in_a_function(s),
    ensures
        lowered_on(s, s.after_declarator(at, decl, t, is_static, init)),
{
    quiet_on(s, s);
    let (name, is_pointer) = declared(s.src, decl);
    let v = s.next_var();
    let b = s.after_declarator(at, decl, t, is_static, init);
    if is_fn_pointer(decl) {
        let q = s.with_declared(name, t, is_static, at, true);
        match init {
            Some(e) => {
                after_initial_quiet(q, v, t, decl, e);
            },
            None => {},
        }
        quiet_on(s, b);
    } else if decl.kind == NodeKind::FunctionDeclarator {
        after_fn_decl_on(s, decl, t, is_static);
    } else if name.len() > 0 {
        let q = s.with_declared(name, t, is_static, at, is_pointer);
        quiet_on(s, q);
        assert(in_a_function(q));
        after_construction_on(q, at, t, init);
        let u = q.after_construction(at, t, init);
        on_trans(s, q, u);
        match init {
            Some(e) => {
                after_initial_quiet(u, v, t, decl, e);
                quiet_on(u, u.after_initial(v, t, decl, e));
                on_trans(s, u, u.after_initial(v, t, decl, e));
            },
            None => {},
        }
    }
}

pub proof fn after_declared_on(
    s: LowerV,
    type_node: NodeV,
    c: NodeV,
    t: TypeId,
    is_static: bool,
)
    requires
        in_a_function(s),
    ensures
        lowered_on(s, s.after_declared(type_node, c, t, is_static)),
{
    quiet_on(s, s);
    let b = s.after_declared(type_node, c, t, is_static);
    if c.kind == NodeKind::InitDeclarator {
        let decl = match child_field(c, FieldName::Declarator) {
            Some(d) => d,
            None => c,
        };
        let init = child_field(c, FieldName::Value);
        let (q, u) = s.deduced(type_node, t, init);
        deduced_quiet(s, type_node, t, init);
        quiet_on(s, q);
        assert(in_a_function(q));
        after_declarator_on(q, c, decl, u, is_static, init);
        on_trans(s, q, b);
    } else if c.kind == NodeKind::Declarator || c.kind == NodeKind::PointerDeclarator || c.kind
        == NodeKind::FunctionDeclarator || c.kind == NodeKind::ArrayDeclarator {
        match fn_behind_pointers(c, 0) {
            Some((decl, depth)) => {
                let (q, u) = s.pointer_to(t, depth);
                pointer_to_quiet(s, t, depth);
                quiet_on(s, q);
                after_fn_decl_on(q, decl, u, is_static);
                on_trans(s, q, b);
            },
            None => {
                after_declarator_on(s, c, c, t, is_static, None);
            },
        }
    } else {
        quiet_on(s, b);
    }
}

pub proof fn after_declarators_on(s: LowerV, n: NodeV, type_node: NodeV, t: TypeId, k: int)
    requires
        in_a_function(s),
    ensures
        lowered_on(s, s.after_declarators(n, type_node, t, k)),
    decreases k,
{
    quiet_on(s, s);
    if k > 0 {
        after_declarators_on(s, n, type_node, t, k - 1);
        let q = s.after_declarators(n, type_node, t, k - 1);
        assert(in_a_function(q));
        after_declared_on(q, type_node, n.children[k - 1], t, static_from(n, 0));
        on_trans(s, q, s.after_declarators(n, type_node, t, k));
    }
}

proof fn after_declaration_on(s: LowerV, n: NodeV)
    requires
        in_a_function(s),
    ensures
        lowered_on(s, s.after_declaration(n)),
{
    quiet_on(s, s);
    match child_field(n, FieldName::Type) {
        Some(type_node) => {
            let (q, t) = s.after_type_node(type_node);
            after_type_quiet(s, type_node);
            quiet_on(s, q);
            assert(in_a_function(q));
            after_declarators_on(q, n, type_node, t, n.children.len() as int);
            on_trans(s, q, s.after_declaration(n));
        },
        None => {},
    }
}

pub proof fn after_node_on(s: LowerV, n: NodeV, caller: FnId)
    requires
        in_a_function(s),
        is_function(s.p.symbols, caller),
    ensures
        lowered_on(s, s.after_node(n, caller)),
{
    quiet_on(s, s);
    if n.kind == NodeKind::Declaration {
        after_declaration_on(s, n);
    } else if n.kind == NodeKind::AssignmentExpression {
        after_expr_quiet(s, n, None);
        quiet_on(s, s.after_expr(n, None));
    } else if n.kind == NodeKind::CallExpression {
        after_call_on(s, n, caller);
    } else if n.kind == NodeKind::ReturnStatement {
        after_return_quiet(s, n, caller);
        quiet_on(s, s.after_return(n, caller));
    } else if n.kind == NodeKind::NewExpression && s.is_cpp {
        match s.new_class(n) {
            Some(cls) => {
                let (q, span) = s.placed(n);
                member_call_on(
                    s,
                    q,
                    child_kind(n, NodeKind::ArgumentList),
                    caller,
                    cls,
                    MethodV::Ctor,
                    span,
                );
            },
            None => {},
        }
    } else if n.kind == NodeKind::DeleteExpression && s.is_cpp {
        match last_named(n, n.children.len() as int) {
            Some(operand) => {
                match s.static_class(operand) {
                    Some(cls) => {
                        let (q, span) = s.placed(n);
                        quiet_on(s, q);
                        assert(is_function(q.p.symbols, caller));
                        with_member_call_on(q, caller, cls, MethodV::Dtor, no_args(), span);
                        on_trans(
                            s,
                            q,
                            q.with_member_call(caller, cls, MethodV::Dtor, no_args(), span),
                        );
                    },
                    None => {},
                }
            },
            None => {},
        }
    } else if n.kind == NodeKind::FieldInitializerList && s.is_cpp {
        after_initializer_list_on(s, n, caller);
    }
}

pub proof fn after_body_on(s: LowerV, n: NodeV, caller: FnId)
    requires
        in_a_function(s),
        is_function(s.p.symbols, caller),
    ensures
        lowered_on(s, s.after_body(n, caller)),
    decreases n, 1int, 0int,
{
    after_node_on(s, n, caller);
    let q = s.after_node(n, caller);
    assert(in_a_function(q));
    assert(is_function(q.p.symbols, caller));
    after_bodies_on(q, n, caller, n.children.len() as int);
    on_trans(s, q, s.after_body(n, caller));
}

pub proof fn after_bodies_on(s: LowerV, n: NodeV, caller: FnId, k: int)
    requires
        in_a_function(s),
        is_function(s.p.symbols, caller),
    ensures
        lowered_on(s, s.after_bodies(n, caller, k)),
    decreases n, 0int, k,
{
    quiet_on(s, s);
    if k <= 0 || k > n.children.len() {
    } else {
        after_bodies_on(s, n, caller, k - 1);
        let q = s.after_bodies(n, caller, k - 1);
        assert(in_a_function(q));
        assert(is_function(q.p.symbols, caller));
        after_body_on(q, n.children[k - 1], caller);
        on_trans(s, q, s.after_bodies(n, caller, k));
    }
}

/// Whether no function, call or move of a value is lost, and every call stays in
/// a function, while the function that is being lowered may change.
pub open spec fn moved_on(a: LowerV, b: LowerV) -> bool {
    &&& forall|f: FnId|
        is_function(a.p.symbols, f) ==> #[trigger] is_function(b.p.symbols, f)
    &&& calls_in_functions(a.p.symbols) ==> calls_in_functions(b.p.symbols)
    &&& calls_kept(a, b)
    &&& moves_kept(a, b)
    &&& vars_kept(a, b)
    &&& same_text(a, b)
}

proof fn moved_trans(a: LowerV, b: LowerV, c: LowerV)
    requires
        moved_on(a, b),
        moved_on(b, c),
    ensures
        moved_on(a, c),
{
    assert forall|f: FnId| is_function(a.p.symbols, f) implies #[trigger] is_function(
        c.p.symbols,
        f,
    ) by {
        assert(is_function(b.p.symbols, f));
    }
}

pub proof fn after_head_on(s: LowerV, n: NodeV, decl: NodeV, raw: Seq<char>)
    ensures
        ({
            let (b, f) = s.after_head(n, decl, raw);
            &&& moved_on(s, b)
            &&& b.current_fn == Some(f)
            &&& is_function(b.p.symbols, f)
        }),
{
    let name = s.full_name(raw);
    let cls = s.class_around(name);
    let (s0, return_type) = match child_field(n, FieldName::Type) {
        Some(t) => {
            after_type_quiet(s, t);
            s.after_type_node(t)
        },
        None => (s, s.int_type()),
    };
    let id = s0.next_fn();
    let (s1, this) = s0.with_fn_id().with_this(n, id, cls);
    let (s2, params) = s1.after_all_params(decl, id, this);
    after_all_params_quiet(s1, decl, id, this);
    let (s3, span) = s2.placed(n);
    assert(quiet(s, s3));
    quiet_on(s, s3);
    let f = FnV {
        id,
        name,
        linkage: if static_from(n, 0) || s.in_anonymous() {
            Linkage::Internal
        } else {
            Linkage::External
        },
        return_type,
        params,
        locals: Seq::empty(),
        span,
        file: s.file,
        is_defined: true,
        is_virtual: is_virtual(n),
        is_cpp: s.is_cpp,
    };
    with_owner_on(s3, f);
    on_trans(s, s3, s3.with_owner(f).0);
}

proof fn after_init_lists_on(s: LowerV, n: NodeV, f: FnId, k: int)
    requires
        in_a_function(s),
        is_function(s.p.symbols, f),
    ensures
        lowered_on(s, s.after_init_lists(n, f, k)),
    decreases k,
{
    quiet_on(s, s);
    if k > 0 {
        after_init_lists_on(s, n, f, k - 1);
        let q = s.after_init_lists(n, f, k - 1);
        assert(in_a_function(q));
        assert(is_function(q.p.symbols, f));
        quiet_on(q, q);
        after_body_on(q, n.children[k - 1], f);
        on_trans(s, q, s.after_init_lists(n, f, k));
    }
}

#[verifier::rlimit(40)]
proof fn after_function_on(s: LowerV, n: NodeV)
    requires
        s.current_fn is None,
    ensures
        lowered_on(s, s.after_function(n)),
{
    quiet_on(s, s);
    let decl = match child_field(n, FieldName::Declarator) {
        Some(d) => Some(d),
        None => function_declarator(n),
    };
    match decl {
        Some(d) => {
            let raw = declared(s.src, d).0;
            if raw.len() > 0 {
                let (s0, f) = s.after_head(n, d, raw);
                after_head_on(s, n, d, raw);
                quiet_on(s0, s0);
                let s1 = match child_field(n, FieldName::Body) {
                    Some(body) => {
                        after_body_on(s0, body, f);
                        s0.after_body(body, f)
                    },
                    None => s0,
                };
                assert(is_function(s1.p.symbols, f));
                quiet_on(s1, s1);
                let s2 = if s.is_cpp {
                    after_init_lists_on(s1, n, f, n.children.len() as int);
                    s1.after_init_lists(n, f, n.children.len() as int)
                } else {
                    s1
                };
                moved_trans(s, s0, s1);
                moved_trans(s, s1, s2);
                let b = s.after_function(n);
                same_functions(s2.p.symbols, b.p.symbols);
                assert(b.p == s2.p);
                assert(moved_on(s, b));
            }
        },
        None => {},
    }
}

proof fn with_prototypes_on(s: LowerV, body: NodeV, cls: Seq<char>, k: int)
    ensures
        lowered_on(s, s.with_prototypes(body, cls, k)),
    decreases k,
{
    quiet_on(s, s);
    if k > 0 {
        with_prototypes_on(s, body, cls, k - 1);
        let q = s.with_prototypes(body, cls, k - 1);
        let m = body.children[k - 1];
        quiet_on(q, q);
        with_prototype_on(q, m, cls);
        on_trans(s, q, s.with_prototypes(body, cls, k));
    }
}

proof fn with_prototype_on(s: LowerV, n: NodeV, cls: Seq<char>)
    ensures
        lowered_on(s, s.with_prototype(n, cls)),
{
    quiet_on(s, s);
    match short_name(s.src, n) {
        Some(short) => {
            let id = s.next_fn();
            let (q, span) = s.with_fn_id().placed(n);
            quiet_on(s, q);
            let f = FnV {
                id,
                name: cls + "::"@ + short,
                linkage: if s.in_anonymous() {
                    Linkage::Internal
                } else {
                    Linkage::External
                },
                return_type: q.p.types.resolved(DescV::Void),
                params: Seq::empty(),
                locals: Seq::empty(),
                span,
                file: s.file,
                is_defined: false,
                is_virtual: is_virtual(n),
                is_cpp: s.is_cpp,
            };
            with_fn_on(q, f);
            on_trans(s, q, q.with_fn(f).0);
        },
        None => {},
    }
}

proof fn after_methods_on(s: LowerV, body: NodeV, cls: Seq<char>, k: int)
    requires
        s.current_fn is None,
    ensures
        lowered_on(s, s.after_methods(body, cls, k)),
    decreases k,
{
    quiet_on(s, s);
    if k > 0 {
        after_methods_on(s, body, cls, k - 1);
        let q = s.after_methods(body, cls, k - 1);
        let m = body.children[k - 1];
        let u = LowerV { class: Some(cls), ..q };
        quiet_on(q, q);
        quiet_on(q, u);
        after_function_on(u, m);
        on_trans(q, u, u.after_function(m));
        on_trans(s, q, s.after_methods(body, cls, k));
    }
}

proof fn after_members_on(s: LowerV, n: NodeV, cls: Seq<char>)
    requires
        s.current_fn is None,
    ensures
        lowered_on(s, s.after_members(n, cls)),
{
    quiet_on(s, s);
    match child_field(n, FieldName::Body) {
        Some(body) => {
            let k = body.children.len() as int;
            with_prototypes_on(s, body, cls, k);
            let q = s.with_prototypes(body, cls, k);
            after_methods_on(q, body, cls, k);
            let u = q.after_methods(body, cls, k);
            on_trans(s, q, u);
            quiet_on(u, s.after_members(n, cls));
            on_trans(s, u, s.after_members(n, cls));
        },
        None => {},
    }
}

pub proof fn after_tree_on(s: LowerV, n: NodeV)
    requires
        s.current_fn is None,
    ensures
        lowered_on(s, s.after_tree(n)),
    decreases n, 1int, 0int,
{
    quiet_on(s, s);
    if n.kind == NodeKind::FunctionDefinition {
        after_function_on(s, n);
    } else if n.kind == NodeKind::Declaration {
        after_declaration_on(s, n);
    } else if n.kind == NodeKind::StructSpecifier || n.kind == NodeKind::UnionSpecifier {
        after_struct_quiet(s, n);
        quiet_on(s, s.after_struct(n).0);
    } else if n.kind == NodeKind::ClassSpecifier {
        after_struct_quiet(s, n);
        let (q, tag) = s.after_struct(n);
        quiet_on(s, q);
        after_members_on(q, n, tag);
        on_trans(s, q, q.after_members(n, tag));
    } else if n.kind == NodeKind::NamespaceDefinition {
        let q = LowerV { ns: s.ns.push(s.namespace_name(n)), ..s };
        quiet_on(s, q);
        after_lists_on(q, n, n.children.len() as int);
        let u = q.after_lists(n, n.children.len() as int);
        on_trans(s, q, u);
        quiet_on(u, s.after_tree(n));
        on_trans(s, u, s.after_tree(n));
    } else if n.kind == NodeKind::UsingDeclaration {
        quiet_on(s, s.after_using(n));
    } else if n.kind == NodeKind::TypeDefinition {
        after_typedef_quiet(s, n);
        quiet_on(s, s.after_typedef(n));
    } else {
        after_trees_on(s, n, n.children.len() as int);
    }
}

pub proof fn after_trees_on(s: LowerV, n: NodeV, k: int)
    requires
        s.current_fn is None,
    ensures
        lowered_on(s, s.after_trees(n, k)),
    decreases n, 0int, k,
{
    quiet_on(s, s);
    if k <= 0 || k > n.children.len() {
    } else {
        after_trees_on(s, n, k - 1);
        let q = s.after_trees(n, k - 1);
        quiet_on(q, q);
        after_tree_on(q, n.children[k - 1]);
        on_trans(s, q, s.after_trees(n, k));
    }
}

proof fn after_lists_on(s: LowerV, n: NodeV, k: int)
    requires
        s.current_fn is None,
    ensures
        lowered_on(s, s.after_lists(n, k)),
    decreases n, 0int, k,
{
    quiet_on(s, s);
    if k <= 0 || k > n.children.len() {
    } else {
        after_lists_on(s, n, k - 1);
        let q = s.after_lists(n, k - 1);
        let c = n.children[k - 1];
        quiet_on(q, q);
        after_trees_on(q, c, c.children.len() as int);
        on_trans(s, q, s.after_lists(n, k));
    }
}

proof fn lowered_calls_are_in_functions(
    unit: UnitV,
    root: Seq<char>,
    path: Seq<char>,
    primary: Seq<char>,
    parsed: ParsedV,
    lines: LineMapV,
)
    requires
        unit == unit_of(path, unit_program(root, path, primary, parsed, lines)),
    ensures
        callers_are_there(unit),
{
    reveal(unit_program);
    let s = unit_start(root, path, primary, parsed.source, lines, parsed.has_errors);
    let t = s.after_tree(parsed.tree);
    after_tree_on(s, parsed.tree);
    let u = LowerV { pending: Seq::empty(), ..t };
    settled_quiet(u, t.pending, t.pending.len() as int);
    quiet_on(t, t.settled());
    on_trans(s, t, t.settled());
    let p = t.settled().p.symbols;
    assert(calls_in_functions(s.p.symbols));
    assert forall|k: int| 0 <= k < unit.call_sites.len() implies exists|i: int|
        0 <= i < unit.functions.len() && (#[trigger] unit.functions[i]).id == (
        #[trigger] unit.call_sites[k]).caller by {
        assert(is_function(p, p.call_sites[k].caller));
        let i = choose|i: int|
            0 <= i < p.functions.len() && (#[trigger] p.functions[i]).id == p.call_sites[k].caller;
        assert(unit.functions[i].id == unit.call_sites[k].caller);
    }
}

/// Every call that a source contributes is in a function that it contributes.
pub proof fn calls_are_in_functions(
    unit: UnitV,
    root: Seq<char>,
    path: Seq<char>,
    primary: Seq<char>,
    pre: Result<ResultV, ErrorV>,
)
    requires
        is_unit_of(unit, root, path, primary, pre),
    ensures
        callers_are_there(unit),
{
    match pre {
        Ok(res) => {
            match tree_of(res.output, language_of(path)) {
                Some(raw) => {
                    let parsed = choose|parsed: ParsedV|
                        parsed.source == res.output && parsed.has_errors == raw.error && shaped(
                            parsed.tree,
                            raw,
                            res.output,
                        ) && unit == #[trigger] unit_of(
                            path,
                            unit_program(root, path, primary, parsed, res.line_map),
                        );
                    lowered_calls_are_in_functions(
                        unit,
                        root,
                        path,
                        primary,
                        parsed,
                        res.line_map,
                    );
                },
                None => {},
            }
        },
        Err(_) => {},
    }
}

} // verus!
