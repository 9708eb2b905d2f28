//! Every part of a body is lowered, and every declaration declares.

use crate::index::lower::calls::ArgsV;
use crate::index::lower::laws::{
    after_all_args_quiet, after_all_params_quiet, after_bodies_on, after_body_on,
    after_construction_on, after_declarators_on, after_declared_on, after_initial_quiet,
    after_node_on, after_params_quiet, after_tree_on, after_trees_on, after_type_quiet,
    deduced_quiet, in_a_function, loaded_callee_quiet, lowered_on, on_trans, quiet, quiet_on,
    same_call, same_var,
};
use crate::index::lower::moves::{field_found, first_named_found, is_field_at, is_first_named};
use crate::index::lower::nodes::{declared, is_fn_pointer, is_virtual, peeled, static_from};
use crate::index::lower::state::{anon_from, LowerV};
use crate::index::names::{shout_char, shouted};
use crate::index::references::is_function;
use crate::index::syntax::{child_field, kind_from, text_of, FieldName, NodeKind, NodeV};
use crate::ir::ids::{FnId, Span, TypeId, VarId};
use crate::ir::symbol::{
    declared_is_there, fn_position, position_found, FnV, Linkage, StorageClass, VarV,
};
use vstd::prelude::*;

verus! {

/// The part of a tree to which a path leads, which says at every node which
/// child comes next.
pub open spec fn inside(n: NodeV, path: Seq<int>) -> Option<NodeV>
    decreases path.len(),
{
    if path.len() == 0 {
        Some(n)
    } else if 0 <= path[0] < n.children.len() {
        inside(n.children[path[0]], path.skip(1))
    } else {
        None
    }
}

proof fn later_bodies(s: LowerV, n: NodeV, caller: FnId, i: int, k: int)
    requires
        in_a_function(s),
        is_function(s.p.symbols, caller),
        0 <= i <= k <= n.children.len(),
    ensures
        lowered_on(s.after_bodies(n, caller, i), s.after_bodies(n, caller, k)),
    decreases k - i,
{
    after_bodies_on(s, n, caller, i);
    let q = s.after_bodies(n, caller, i);
    quiet_on(q, q);
    if i < k {
        later_bodies(s, n, caller, i, k - 1);
        let r = s.after_bodies(n, caller, k - 1);
        after_bodies_on(s, n, caller, k - 1);
        assert(is_function(r.p.symbols, caller));
        assert(in_a_function(r)) by {
            if let Some(f) = s.current_fn {
                assert(is_function(r.p.symbols, f));
            }
        }
        after_body_on(r, n.children[k - 1], caller);
        on_trans(q, r, s.after_bodies(n, caller, k));
    }
}

proof fn stays_in_function(s: LowerV, q: LowerV, caller: FnId)
    requires
        in_a_function(s),
        is_function(s.p.symbols, caller),
        lowered_on(s, q),
    ensures
        in_a_function(q),
        is_function(q.p.symbols, caller),
{
    if let Some(f) = s.current_fn {
        assert(is_function(q.p.symbols, f));
    }
}

proof fn part_is_lowered(s: LowerV, n: NodeV, caller: FnId, path: Seq<int>, d: NodeV) -> (q: LowerV)
    requires
        in_a_function(s),
        is_function(s.p.symbols, caller),
        inside(n, path) == Some(d),
    ensures
        lowered_on(s, q),
        lowered_on(q.after_node(d, caller), s.after_body(n, caller)),
    decreases path.len(),
{
    let a = s.after_node(n, caller);
    after_node_on(s, n, caller);
    stays_in_function(s, a, caller);
    if path.len() == 0 {
        quiet_on(s, s);
        after_bodies_on(a, n, caller, n.children.len() as int);
        s
    } else {
        let i = path[0];
        let r = a.after_bodies(n, caller, i);
        after_bodies_on(a, n, caller, i);
        on_trans(s, a, r);
        stays_in_function(a, r, caller);
        let q = part_is_lowered(r, n.children[i], caller, path.skip(1), d);
        on_trans(s, r, q);
        let t = a.after_bodies(n, caller, i + 1);
        assert(t == r.after_body(n.children[i], caller));
        later_bodies(a, n, caller, i + 1, n.children.len() as int);
        on_trans(q.after_node(d, caller), t, s.after_body(n, caller));
        q
    }
}

/// Every call, assignment, return and declaration of a body is lowered, however
/// deep it stands, and what comes of it is kept.
pub proof fn bodies_are_lowered_whole(
    s: LowerV,
    n: NodeV,
    caller: FnId,
    path: Seq<int>,
    d: NodeV,
)
    requires
        in_a_function(s),
        is_function(s.p.symbols, caller),
        inside(n, path) == Some(d),
    ensures
        exists|q: LowerV|
            {
                let end = s.after_body(n, caller);
                &&& #[trigger] lowered_on(s, q)
                &&& d.kind == NodeKind::CallExpression ==> lowered_on(q.after_call(d, caller), end)
                &&& d.kind == NodeKind::AssignmentExpression ==> lowered_on(
                    q.after_expr(d, None),
                    end,
                )
                &&& d.kind == NodeKind::ReturnStatement ==> lowered_on(
                    q.after_return(d, caller),
                    end,
                )
                &&& d.kind == NodeKind::Declaration ==> lowered_on(q.after_declaration(d), end)
            },
{
    let q = part_is_lowered(s, n, caller, path, d);
    assert(lowered_on(s, q));
}

/// Whether a name can be that of a function or variable and not of a macro: it
/// has a letter that is not a capital, and no quote.
pub open spec fn is_plain_name(name: Seq<char>) -> bool {
    &&& exists|i: int| 0 <= i < name.len() && 'a' <= #[trigger] name[i] <= 'z'
    &&& !name.contains('"')
}

proof fn first_site_is_there(
    s: LowerV,
    caller: FnId,
    name: Seq<char>,
    callee_var: Option<VarId>,
    chosen: Seq<FnId>,
    args: ArgsV,
    span: Span,
    k: int,
)
    requires
        0 < k <= chosen.len(),
        is_function(s.p.symbols, caller),
    ensures
        ({
            let b = s.with_named_sites(caller, name, callee_var, chosen, args, span, k);
            let at = s.p.symbols.call_sites.len() as int;
            &&& b.p.symbols.call_sites.len() > at
            &&& b.p.symbols.call_sites[at].callee_name == name
            &&& b.p.symbols.call_sites[at].caller == caller
            &&& b.p.symbols.call_sites[at].callee_fn_id == Some(chosen[0])
            &&& b.p.symbols.call_sites[at].var_args == args.vars
            &&& b.p.symbols.call_sites[at].fn_args == args.fns
        }),
    decreases k,
{
    assert(s.with_named_sites(caller, name, callee_var, chosen, args, span, 0) == s);
    if k > 1 {
        first_site_is_there(s, caller, name, callee_var, chosen, args, span, k - 1);
    }
}

/// A call by name is a call in the function around it, under that name, and with
/// the arguments that it has.
pub proof fn calls_by_name_are_noted(s: LowerV, n: NodeV, j: int, caller: FnId)
    requires
        is_function(s.p.symbols, caller),
        n.kind == NodeKind::CallExpression,
        is_field_at(n, FieldName::Function, j),
        n.children[j].kind == NodeKind::Identifier,
        is_plain_name(text_of(s.src, n.children[j])),
    ensures
        ({
            let name = text_of(s.src, n.children[j]);
            let b = s.after_call(n, caller);
            let at = s.p.symbols.call_sites.len() as int;
            let site = b.p.symbols.call_sites[at];
            let q = s.placed(n).0;
            &&& b.p.symbols.call_sites.len() > at
            &&& site.callee_name == name
            &&& site.caller == caller
            &&& site.span == s.placed(n).1
            &&& site.var_args == q.after_all_args(child_field(n, FieldName::Arguments)).1.vars
            &&& site.fn_args == q.after_all_args(child_field(n, FieldName::Arguments)).1.fns
        }),
{
    let func = n.children[j];
    field_found(n, FieldName::Function, j);
    let name = text_of(s.src, func);
    let (q, span) = s.placed(n);
    assert(quiet(s, q));
    assert(q.member_called(func) is None);
    assert(peeled(func) == func);
    loaded_callee_quiet(q, func);
    let (l, (found, sure, callee_var)) = q.loaded_callee(func);
    assert(l == q);
    assert(found == name);
    assert(!shouted(name)) by {
        let i = choose|i: int| 0 <= i < name.len() && 'a' <= #[trigger] name[i] <= 'z';
        if shouted(name) {
            assert(shout_char(name[i]));
        }
    }
    let list = child_field(n, FieldName::Arguments);
    let (t, args) = q.after_all_args(list);
    after_all_args_quiet(q, list);
    let chosen = t.chosen(name, callee_var, args);
    quiet_on(q, t);
    quiet_on(s, q);
    assert(is_function(q.p.symbols, caller));
    assert(is_function(t.p.symbols, caller));
    if chosen.len() > 0 {
        first_site_is_there(
            t,
            caller,
            name,
            callee_var,
            chosen,
            args,
            span,
            chosen.len() as int,
        );
        // The site is where the first of them is put.
        with_named_sites_span(t, caller, name, callee_var, chosen, args, span, chosen.len() as int);
    }
}

proof fn with_named_sites_span(
    s: LowerV,
    caller: FnId,
    name: Seq<char>,
    callee_var: Option<VarId>,
    chosen: Seq<FnId>,
    args: ArgsV,
    span: Span,
    k: int,
)
    requires
        0 < k <= chosen.len(),
    ensures
        ({
            let b = s.with_named_sites(caller, name, callee_var, chosen, args, span, k);
            let at = s.p.symbols.call_sites.len() as int;
            &&& b.p.symbols.call_sites.len() == at + k
            &&& b.p.symbols.call_sites[at].span == span
        }),
    decreases k,
{
    assert(s.with_named_sites(caller, name, callee_var, chosen, args, span, 0) == s);
    if k > 1 {
        with_named_sites_span(s, caller, name, callee_var, chosen, args, span, k - 1);
    }
}

/// Every call by name in a body has a call of that name, however deep it stands.
pub proof fn calls_of_bodies_are_noted(
    s: LowerV,
    n: NodeV,
    caller: FnId,
    path: Seq<int>,
    d: NodeV,
    j: int,
)
    requires
        in_a_function(s),
        is_function(s.p.symbols, caller),
        inside(n, path) == Some(d),
        d.kind == NodeKind::CallExpression,
        is_field_at(d, FieldName::Function, j),
        d.children[j].kind == NodeKind::Identifier,
        is_plain_name(text_of(s.src, d.children[j])),
    ensures
        ({
            let end = s.after_body(n, caller).p.symbols.call_sites;
            exists|k: int|
                s.p.symbols.call_sites.len() <= k < end.len() && (#[trigger] end[k]).callee_name
                    == text_of(s.src, d.children[j])
        }),
{
    let q = part_is_lowered(s, n, caller, path, d);
    stays_in_function(s, q, caller);
    calls_by_name_are_noted(q, d, j, caller);
    let k = q.p.symbols.call_sites.len() as int;
    let end = s.after_body(n, caller).p.symbols.call_sites;
    let mid = q.after_node(d, caller).p.symbols.call_sites;
    assert(same_call(mid[k], end[k]));
    assert(end[k].callee_name == text_of(s.src, d.children[j]));
}

/// Whether a node is a bracket or a comma of a list of arguments.
pub open spec fn is_list_mark(n: NodeV) -> bool {
    n.kind == NodeKind::OpenParen || n.kind == NodeKind::CloseParen || n.kind == NodeKind::Comma
}

/// How many arguments there are among the first `k` parts of a list.
pub open spec fn arguments_before(n: NodeV, k: int) -> nat
    decreases k,
{
    if k <= 0 {
        0
    } else if is_list_mark(n.children[k - 1]) {
        arguments_before(n, k - 1)
    } else {
        arguments_before(n, k - 1) + 1
    }
}

proof fn arguments_are_counted(s: LowerV, n: NodeV, k: int)
    requires
        0 <= k <= n.children.len() < u32::MAX,
    ensures
        s.after_args(n, k).1.count == arguments_before(n, k),
        arguments_before(n, k) <= k,
    decreases k,
{
    if k > 0 {
        arguments_are_counted(s, n, k - 1);
    }
}

proof fn arguments_are_kept(s: LowerV, n: NodeV, i: int, k: int)
    requires
        0 <= i <= k <= n.children.len(),
    ensures
        forall|p: (u32, VarId)|
            s.after_args(n, i).1.vars.contains(p) ==> #[trigger] s.after_args(n, k).1.vars.contains(
                p,
            ),
        forall|p: (u32, FnId)|
            s.after_args(n, i).1.fns.contains(p) ==> #[trigger] s.after_args(n, k).1.fns.contains(
                p,
            ),
    decreases k - i,
{
    if i < k {
        arguments_are_kept(s, n, i, k - 1);
        let a = s.after_args(n, k - 1).1;
        let b = s.after_args(n, k).1;
        assert(a.vars.len() <= b.vars.len() && forall|m: int|
            0 <= m < a.vars.len() ==> #[trigger] b.vars[m] == a.vars[m]);
        assert(a.fns.len() <= b.fns.len() && forall|m: int|
            0 <= m < a.fns.len() ==> #[trigger] b.fns[m] == a.fns[m]);
        assert forall|p: (u32, VarId)| a.vars.contains(p) implies #[trigger] b.vars.contains(p) by {
            let m = choose|m: int| 0 <= m < a.vars.len() && a.vars[m] == p;
            assert(b.vars[m] == p);
        }
        assert forall|p: (u32, FnId)| a.fns.contains(p) implies #[trigger] b.fns.contains(p) by {
            let m = choose|m: int| 0 <= m < a.fns.len() && a.fns[m] == p;
            assert(b.fns[m] == p);
        }
    }
}

/// An argument that is the name of a variable is that variable, and one that is
/// the name of a function is that function, in the place that it has among the
/// arguments.
pub proof fn arguments_keep_their_places(s: LowerV, n: NodeV, i: int)
    requires
        0 <= i < n.children.len() < u32::MAX,
        n.children[i].kind == NodeKind::Identifier,
    ensures
        ({
            let q = s.after_args(n, i).0;
            let args = s.after_args(n, n.children.len() as int).1;
            let name = text_of(q.src, n.children[i]);
            let place = arguments_before(n, i) as u32;
            match q.lookup(name) {
                Some(v) => args.vars.contains((place, v)),
                None => match q.p.symbols.resolve_in_scope(name, Some(q.file)) {
                    Some(f) => args.fns.contains((place, f)),
                    None => true,
                },
            }
        }),
{
    arguments_are_counted(s, n, i);
    let (q, before) = s.after_args(n, i);
    let name = text_of(q.src, n.children[i]);
    let after = s.after_args(n, i + 1).1;
    arguments_are_kept(s, n, i + 1, n.children.len() as int);
    match q.lookup(name) {
        Some(v) => {
            assert(after.vars.last() == (before.count, v));
            assert(after.vars.contains((before.count, v)));
        },
        None => {
            if let Some(f) = q.p.symbols.resolve_in_scope(name, Some(q.file)) {
                assert(q.fn_argument(n.children[i]) == Some(f));
                assert(after.fns.last() == (before.count, f));
                assert(after.fns.contains((before.count, f)));
            }
        },
    }
}

/// A pointer or reference declares what stands behind it, as a pointer; an array
/// or function declares what stands before its brackets, and parentheses what
/// stands in them; a name declares itself.
pub proof fn declarators_declare_what_they_hold(src: Seq<char>, n: NodeV, j: int)
    ensures
        n.kind == NodeKind::Identifier ==> declared(src, n) == (text_of(src, n), false),
        (n.kind == NodeKind::PointerDeclarator || n.kind == NodeKind::ReferenceDeclarator)
            && is_field_at(n, FieldName::Declarator, j) ==> declared(src, n) == (
            declared(src, n.children[j]).0,
            true,
        ),
        (n.kind == NodeKind::FunctionDeclarator || n.kind == NodeKind::ArrayDeclarator)
            && is_field_at(n, FieldName::Declarator, j) ==> declared(src, n) == declared(
            src,
            n.children[j],
        ),
        n.kind == NodeKind::ParenthesizedDeclarator && is_first_named(n, j) ==> declared(src, n)
            == declared(src, n.children[j]),
{
    if is_field_at(n, FieldName::Declarator, j) {
        field_found(n, FieldName::Declarator, j);
    }
    if is_first_named(n, j) {
        first_named_found(n, j);
    }
}

/// Whether a child is of a kind.
pub open spec fn has_kind(n: NodeV, kind: NodeKind) -> bool {
    exists|j: int| 0 <= j < n.children.len() && (#[trigger] n.children[j]).kind == kind
}

/// Whether a declaration says `static`.
pub open spec fn says_static(n: NodeV) -> bool {
    exists|i: int|
        0 <= i < n.children.len() && (#[trigger] n.children[i]).kind
            == NodeKind::StorageClassSpecifier && has_kind(n.children[i], NodeKind::StaticWord)
}

proof fn kind_is_found(n: NodeV, kind: NodeKind, i: int)
    requires
        0 <= i <= n.children.len(),
    ensures
        kind_from(n, kind, i) is Some <==> exists|j: int|
            i <= j < n.children.len() && (#[trigger] n.children[j]).kind == kind,
    decreases n.children.len() - i,
{
    if i < n.children.len() {
        kind_is_found(n, kind, i + 1);
        if kind_from(n, kind, i) is Some && n.children[i].kind != kind {
            let j = choose|j: int|
                i + 1 <= j < n.children.len() && (#[trigger] n.children[j]).kind == kind;
            assert(n.children[j].kind == kind);
        }
    }
}

proof fn static_is_found(n: NodeV, i: int)
    requires
        0 <= i <= n.children.len(),
    ensures
        static_from(n, i) <==> exists|j: int|
            i <= j < n.children.len() && (#[trigger] n.children[j]).kind
                == NodeKind::StorageClassSpecifier && has_kind(
                n.children[j],
                NodeKind::StaticWord,
            ),
    decreases n.children.len() - i,
{
    if i < n.children.len() {
        static_is_found(n, i + 1);
        kind_is_found(n.children[i], NodeKind::StaticWord, 0);
        if static_from(n, i + 1) {
            let j = choose|j: int|
                i + 1 <= j < n.children.len() && (#[trigger] n.children[j]).kind
                    == NodeKind::StorageClassSpecifier && has_kind(
                    n.children[j],
                    NodeKind::StaticWord,
                );
            assert(n.children[j].kind == NodeKind::StorageClassSpecifier);
        }
    }
}

/// Where a variable lives: inside a function it is local, or lasts where it is
/// static; outside it is that of the program, or of the file where it is static.
pub open spec fn lives(inside: bool, is_static: bool, storage: StorageClass) -> bool {
    &&& inside && !is_static ==> storage == StorageClass::Local
    &&& inside && is_static ==> storage == StorageClass::FnStatic
    &&& !inside && is_static ==> storage == StorageClass::FileStatic
    &&& !inside && !is_static ==> storage == StorageClass::Global
}

proof fn declarators_later(s: LowerV, n: NodeV, type_node: NodeV, t: TypeId, i: int, k: int)
    requires
        in_a_function(s),
        0 <= i <= k,
    ensures
        lowered_on(
            s.after_declarators(n, type_node, t, i),
            s.after_declarators(n, type_node, t, k),
        ),
    decreases k - i,
{
    let q = s.after_declarators(n, type_node, t, i);
    quiet_on(q, q);
    if i < k {
        declarators_later(s, n, type_node, t, i, k - 1);
        let r = s.after_declarators(n, type_node, t, k - 1);
        after_declarators_on(s, n, type_node, t, k - 1);
        if let Some(f) = s.current_fn {
            assert(is_function(r.p.symbols, f));
        }
        after_declared_on(
            r,
            type_node,
            n.children[k - 1],
            t,
            static_from(n, 0),
        );
        on_trans(q, r, s.after_declarators(n, type_node, t, k));
    }
}

/// A name in a declaration declares a variable of that name, which lives as long
/// as the place of the declaration and the word `static` say; a pointer or a
/// value for it changes nothing of that.
pub proof fn names_are_declared(s: LowerV, n: NodeV, ty: int, i: int, name: Seq<char>)
    requires
        in_a_function(s),
        is_field_at(n, FieldName::Type, ty),
        0 <= i < n.children.len(),
        n.children[i].kind == NodeKind::Identifier && text_of(s.src, n.children[i]) == name || (
        n.children[i].kind == NodeKind::InitDeclarator && exists|j: int| #[trigger]
            is_field_at(n.children[i], FieldName::Declarator, j) && n.children[i].children[j].kind
                == NodeKind::Identifier && text_of(s.src, n.children[i].children[j]) == name),
        name.len() > 0,
    ensures
        ({
            let end = s.after_declaration(n);
            exists|k: int|
                s.p.symbols.variables.len() <= k < end.p.symbols.variables.len() && (
                #[trigger] end.p.symbols.variables[k]).name == name && lives(
                    s.current_fn is Some,
                    says_static(n),
                    end.p.symbols.variables[k].storage,
                )
        }),
{
    field_found(n, FieldName::Type, ty);
    static_is_found(n, 0);
    assert(static_from(n, 0) == says_static(n));
    let type_node = n.children[ty];
    after_type_quiet(s, type_node);
    let (a, t) = s.after_type_node(type_node);
    quiet_on(s, a);
    if let Some(f) = s.current_fn {
        assert(is_function(a.p.symbols, f));
    }
    after_declarators_on(a, n, type_node, t, i);
    let q = a.after_declarators(n, type_node, t, i);
    on_trans(s, a, q);
    if let Some(f) = s.current_fn {
        assert(is_function(q.p.symbols, f));
    }
    let is_static = static_from(n, 0);
    let c = n.children[i];
    let r = q.after_declared(type_node, c, t, is_static);
    assert(r == a.after_declarators(n, type_node, t, i + 1));
    declarators_later(a, n, type_node, t, i + 1, n.children.len() as int);
    let end = s.after_declaration(n);
    let k = if c.kind == NodeKind::Identifier {
        q.p.symbols.variables.len() as int
    } else {
        let j = choose|j: int| #[trigger]
            is_field_at(c, FieldName::Declarator, j) && c.children[j].kind == NodeKind::Identifier
                && text_of(s.src, c.children[j]) == name;
        field_found(c, FieldName::Declarator, j);
        let decl = c.children[j];
        let init = child_field(c, FieldName::Value);
        let (u, ut) = q.deduced(type_node, t, init);
        deduced_quiet(q, type_node, t, init);
        quiet_on(q, u);
        assert(declared(u.src, decl) == (name, false));
        assert(!is_fn_pointer(decl));
        let w = u.with_declared(name, ut, is_static, c, false);
        assert(quiet(u, w));
        quiet_on(u, w);
        if let Some(f) = s.current_fn {
            assert(is_function(u.p.symbols, f));
            assert(is_function(w.p.symbols, f));
        }
        after_construction_on(w, c, ut, init);
        let x = w.after_construction(c, ut, init);
        if let Some(e) = init {
            after_initial_quiet(x, u.next_var(), ut, decl, e);
            quiet_on(x, x.after_initial(u.next_var(), ut, decl, e));
            on_trans(w, x, x.after_initial(u.next_var(), ut, decl, e));
        }
        assert(lowered_on(w, r));
        assert(w.p.symbols.variables[u.p.symbols.variables.len() as int].name == name);
        u.p.symbols.variables.len() as int
    };
    assert(r.p.symbols.variables[k].name == name);
    assert(same_var(r.p.symbols.variables[k], end.p.symbols.variables[k]));
    assert(end.p.symbols.variables[k].name == name);
}

/// The names of the parameters among the first `k` parts of a list.
pub open spec fn named_params(src: Seq<char>, n: NodeV, k: int) -> Seq<Seq<char>>
    decreases k,
{
    if k <= 0 {
        Seq::empty()
    } else {
        let before = named_params(src, n, k - 1);
        let c = n.children[k - 1];
        match child_field(c, FieldName::Declarator) {
            Some(d) => if c.kind == NodeKind::ParameterDeclaration && declared(src, d).0.len()
                > 0 {
                before.push(declared(src, d).0)
            } else {
                before
            },
            None => before,
        }
    }
}

/// Whether one of the variables is a parameter with a name, an identifier and a
/// place.
pub open spec fn has_param(vars: Seq<VarV>, v: VarId, name: Seq<char>, place: u32) -> bool {
    exists|j: int|
        0 <= j < vars.len() && (#[trigger] vars[j]).id == v && vars[j].name == name
            && vars[j].storage == StorageClass::Param && vars[j].param_index == Some(place)
}

/// The parameters of a function are the names in its list, in that order, each
/// with its place behind what came before.
pub proof fn parameters_are_in_order(
    s: LowerV,
    n: NodeV,
    f: FnId,
    params: Seq<VarId>,
    k: int,
)
    requires
        0 <= k <= n.children.len(),
    ensures
        ({
            let (b, got) = s.after_params(n, f, params, k);
            let names = named_params(s.src, n, k);
            &&& got.len() == params.len() + names.len()
            &&& got.take(params.len() as int) == params
            &&& forall|i: int|
                0 <= i < names.len() ==> has_param(
                    b.p.symbols.variables,
                    got[params.len() + i],
                    #[trigger] names[i],
                    (params.len() + i) as u32,
                )
        }),
    decreases k,
{
    if k <= 0 {
        assert(params.take(params.len() as int) =~= params);
    } else {
        parameters_are_in_order(s, n, f, params, k - 1);
        after_params_quiet(s, n, f, params, k - 1);
        after_params_quiet(s, n, f, params, k);
        let (q, had) = s.after_params(n, f, params, k - 1);
        let (b, got) = s.after_params(n, f, params, k);
        let c = n.children[k - 1];
        let before = named_params(s.src, n, k - 1);
        let names = named_params(s.src, n, k);
        assert(quiet(q, b)) by {
            if let Some(t) = child_field(c, FieldName::Type) {
                after_type_quiet(q, t);
            }
        }
        assert(q.src == s.src);
        assert(had.len() <= got.len() && forall|i: int|
            0 <= i < had.len() ==> #[trigger] got[i] == had[i]);
        assert(got.take(params.len() as int) =~= params) by {
            assert forall|i: int| 0 <= i < params.len() implies #[trigger] got[i] == params[i] by {
                assert(had.take(params.len() as int)[i] == had[i]);
            }
        }
        assert forall|i: int| 0 <= i < names.len() implies has_param(
            b.p.symbols.variables,
            got[params.len() + i],
            #[trigger] names[i],
            (params.len() + i) as u32,
        ) by {
            if i < before.len() {
                assert(names[i] == before[i]);
                let place = (params.len() + i) as u32;
                assert(has_param(q.p.symbols.variables, had[params.len() + i], before[i], place));
                let vars = q.p.symbols.variables;
                let j = choose|j: int|
                    0 <= j < vars.len() && (#[trigger] vars[j]).id == had[params.len() + i]
                        && vars[j].name == before[i] && vars[j].storage == StorageClass::Param
                        && vars[j].param_index == Some(place);
                assert(same_var(vars[j], b.p.symbols.variables[j]));
                assert(b.p.symbols.variables[j].id == got[params.len() + i]);
            } else {
                let at = b.p.symbols.variables.len() - 1;
                assert(b.p.symbols.variables[at].id == got[params.len() + i]);
            }
        }
    }
}

/// Whether a node of a file holds declarations and is none itself.
pub open spec fn opens(n: NodeV) -> bool {
    &&& n.kind != NodeKind::FunctionDefinition
    &&& n.kind != NodeKind::Declaration
    &&& n.kind != NodeKind::StructSpecifier
    &&& n.kind != NodeKind::UnionSpecifier
    &&& n.kind != NodeKind::ClassSpecifier
    &&& n.kind != NodeKind::NamespaceDefinition
    &&& n.kind != NodeKind::UsingDeclaration
    &&& n.kind != NodeKind::TypeDefinition
    &&& n.kind != NodeKind::TemplateDeclaration
}

/// Whether every node on the way to a part of a file holds declarations.
pub open spec fn lies_open(n: NodeV, path: Seq<int>) -> bool
    decreases path.len(),
{
    path.len() == 0 || (opens(n) && 0 <= path[0] < n.children.len() && lies_open(
        n.children[path[0]],
        path.skip(1),
    ))
}

proof fn later_trees(s: LowerV, n: NodeV, i: int, k: int)
    requires
        s.current_fn is None,
        0 <= i <= k <= n.children.len(),
    ensures
        lowered_on(s.after_trees(n, i), s.after_trees(n, k)),
    decreases k - i,
{
    after_trees_on(s, n, i);
    let q = s.after_trees(n, i);
    quiet_on(q, q);
    if i < k {
        later_trees(s, n, i, k - 1);
        let r = s.after_trees(n, k - 1);
        after_trees_on(s, n, k - 1);
        quiet_on(r, r);
        after_tree_on(r, n.children[k - 1]);
        on_trans(q, r, s.after_trees(n, k));
    }
}

proof fn part_of_file_is_lowered(s: LowerV, n: NodeV, path: Seq<int>, d: NodeV) -> (q: LowerV)
    requires
        s.current_fn is None,
        lies_open(n, path),
        inside(n, path) == Some(d),
    ensures
        lowered_on(s, q),
        lowered_on(q.after_tree(d), s.after_tree(n)),
    decreases path.len(),
{
    if path.len() == 0 {
        quiet_on(s, s);
        let end = s.after_tree(n);
        quiet_on(end, end);
        s
    } else {
        let i = path[0];
        let r = s.after_trees(n, i);
        after_trees_on(s, n, i);
        let q = part_of_file_is_lowered(r, n.children[i], path.skip(1), d);
        on_trans(s, r, q);
        let t = s.after_trees(n, i + 1);
        assert(t == r.after_tree(n.children[i]));
        later_trees(s, n, i + 1, n.children.len() as int);
        on_trans(q.after_tree(d), t, s.after_tree(n));
        q
    }
}

/// Every function and declaration of a file is lowered, and what comes of it is
/// kept.
pub proof fn files_are_lowered_whole(s: LowerV, n: NodeV, path: Seq<int>, d: NodeV)
    requires
        s.current_fn is None,
        lies_open(n, path),
        inside(n, path) == Some(d),
    ensures
        exists|q: LowerV|
            {
                let end = s.after_tree(n);
                &&& #[trigger] lowered_on(s, q)
                &&& d.kind == NodeKind::FunctionDefinition ==> lowered_on(q.after_function(d), end)
                &&& d.kind == NodeKind::Declaration ==> lowered_on(q.after_declaration(d), end)
                &&& d.kind == NodeKind::TypeDefinition ==> lowered_on(q.after_typedef(d), end)
                &&& d.kind == NodeKind::StructSpecifier || d.kind == NodeKind::UnionSpecifier
                    ==> lowered_on(q.after_struct(d).0, end)
            },
{
    let q = part_of_file_is_lowered(s, n, path, d);
    assert(lowered_on(s, q));
}

proof fn anonymous_is_found(ns: Seq<Option<Seq<char>>>, i: int)
    requires
        0 <= i <= ns.len(),
    ensures
        anon_from(ns, i) <==> exists|j: int| i <= j < ns.len() && (#[trigger] ns[j]) is None,
    decreases ns.len() - i,
{
    if i < ns.len() {
        anonymous_is_found(ns, i + 1);
        if anon_from(ns, i + 1) {
            let j = choose|j: int| i + 1 <= j < ns.len() && (#[trigger] ns[j]) is None;
            assert(ns[j] is None);
        }
    }
}

/// Whether one of the functions has an identifier and a body.
pub open spec fn has_body(fns: Seq<FnV>, f: FnId) -> bool {
    exists|i: int| 0 <= i < fns.len() && (#[trigger] fns[i]).id == f && fns[i].is_defined
}

/// Whether one of the functions has an identifier, a name and a linkage.
pub open spec fn is_known_as(fns: Seq<FnV>, f: FnId, name: Seq<char>, linkage: Linkage) -> bool {
    exists|i: int|
        0 <= i < fns.len() && (#[trigger] fns[i]).id == f && fns[i].name == name && fns[i].linkage
            == linkage
}

/// The definition of a function makes a function with a body, in which what
/// follows stands. A function that was not known before goes by its full name, and
/// others can see it unless it is static or in a namespace without a name.
pub proof fn functions_are_defined(s: LowerV, n: NodeV, decl: NodeV, raw: Seq<char>)
    ensures
        ({
            let (b, f) = s.after_head(n, decl, raw);
            let hidden = says_static(n) || exists|j: int|
                0 <= j < s.ns.len() && (#[trigger] s.ns[j]) is None;
            &&& b.current_fn == Some(f)
            &&& has_body(b.p.symbols.functions, f)
            &&& b.p.symbols.functions.len() > s.p.symbols.functions.len() ==> is_known_as(
                b.p.symbols.functions,
                f,
                s.full_name(raw),
                if hidden {
                    Linkage::Internal
                } else {
                    Linkage::External
                },
            )
        }),
{
    static_is_found(n, 0);
    anonymous_is_found(s.ns, 0);
    let name = s.full_name(raw);
    let cls = s.class_around(name);
    let (s0, return_type) = match child_field(n, FieldName::Type) {
        Some(t) => {
            after_type_quiet(s, t);
            s.after_type_node(t)
        },
        None => (s, s.int_type()),
    };
    let id = s0.next_fn();
    let (s1, this) = s0.with_fn_id().with_this(n, id, cls);
    let (s2, params) = s1.after_all_params(decl, id, this);
    after_all_params_quiet(s1, decl, id, this);
    let (s3, span) = s2.placed(n);
    assert(quiet(s, s3));
    let func = FnV {
        id,
        name,
        linkage: if static_from(n, 0) || s.in_anonymous() {
            Linkage::Internal
        } else {
            Linkage::External
        },
        return_type,
        params,
        locals: Seq::empty(),
        span,
        file: s.file,
        is_defined: true,
        is_virtual: is_virtual(n),
        is_cpp: s.is_cpp,
    };
    let a = s3.p.symbols;
    declared_is_there(a, func);
    let (u, f) = a.with_function(func);
    let w = u.reassigned(func.id, f);
    let b = s.after_head(n, decl, raw).0;
    assert(b.p.symbols == w);
    position_found(u.functions, f, 0);
    match a.declared(func) {
        Some(g) => {
            let k = fn_position(a.functions, g, 0);
            assert(u.functions[k].is_defined && u.functions[k].id == f);
            assert(w.functions[k].id == f && w.functions[k].is_defined);
            assert(w.functions.len() == a.functions.len());
        },
        None => {
            let k = a.functions.len() as int;
            assert(w.functions[k] == func);
        },
    }
}

} // verus!
