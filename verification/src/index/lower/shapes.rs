//! What declarations say of types, fields and classes.

use crate::index::lower::laws::{after_field_quiet, after_fields_quiet};
use crate::index::lower::moves::{field_found, first_named_found, is_field_at, is_first_named};
use crate::index::lower::nodes::{
    declared, declared_shape, declares_function, is_fn_pointer, is_pointer_declarator,
};
use crate::index::lower::state::LowerV;
use crate::index::lower::types::names_base;
use crate::index::syntax::{child_field, text_of, FieldName, NodeKind, NodeV};
use crate::ir::layout::fields_keep_their_order;
use crate::ir::program::with_edge;
use crate::ir::types::{position_of_type, DescV, LayoutV, TableV, TypeV};
use vstd::prelude::*;

verus! {

/// The names of the fields among the first `k` parts of the body of a structure:
/// what is declared and no function.
pub open spec fn field_names(src: Seq<char>, body: NodeV, k: int) -> Seq<Seq<char>>
    decreases k,
{
    if k <= 0 {
        Seq::empty()
    } else {
        let before = field_names(src, body, k - 1);
        let c = body.children[k - 1];
        match child_field(c, FieldName::Declarator) {
            Some(d) => if c.kind == NodeKind::FieldDeclaration && !declares_function(c)
                && declared(src, d).0.len() > 0 {
                before.push(declared(src, d).0)
            } else {
                before
            },
            None => before,
        }
    }
}

/// The fields of a structure are those that its body declares, in that order.
pub proof fn fields_are_those_declared(s: LowerV, body: NodeV, k: int)
    requires
        0 <= k <= body.children.len(),
    ensures
        ({
            let fields = s.after_fields(body, k).1;
            let names = field_names(s.src, body, k);
            &&& fields.len() == names.len()
            &&& forall|i: int| 0 <= i < names.len() ==> (#[trigger] fields[i]).0 == names[i]
        }),
    decreases k,
{
    if k > 0 {
        fields_are_those_declared(s, body, k - 1);
        after_fields_quiet(s, body, k - 1);
        let q = s.after_fields(body, k - 1).0;
        after_field_quiet(q, body.children[k - 1]);
        assert(q.src == s.src);
    }
}

/// A field is of the type that stands before it, a pointer to it where it is
/// declared as a pointer, and a function pointer where it is declared as one.
pub proof fn fields_have_their_types(s: LowerV, n: NodeV, t: int, j: int)
    requires
        is_field_at(n, FieldName::Type, t),
        is_field_at(n, FieldName::Declarator, j),
        declared(s.src, n.children[j]).0.len() > 0,
    ensures
        ({
            let d = n.children[j];
            let base = s.after_type(n.children[t]).1;
            let field = s.after_field(n).1;
            &&& field is Some
            &&& (field->0).0 == declared(s.src, d).0
            &&& d.kind == NodeKind::PointerDeclarator ==> (field->0).1 == DescV::Ptr(Box::new(base))
            &&& d.kind == NodeKind::FieldIdentifier || d.kind == NodeKind::Identifier
                ==> (field->0).1 == base
            &&& d.kind == NodeKind::FunctionDeclarator && (exists|k: int| #[trigger]
                is_field_at(d, FieldName::Declarator, k) && d.children[k].kind
                    == NodeKind::ParenthesizedDeclarator) ==> (field->0).1 == (DescV::FnPtr {
                ret: Box::new(base),
                params: Seq::empty(),
            })
        }),
{
    field_found(n, FieldName::Type, t);
    field_found(n, FieldName::Declarator, j);
    let d = n.children[j];
    assert(d.kind == NodeKind::PointerDeclarator ==> is_pointer_declarator(d));
    if d.kind == NodeKind::FunctionDeclarator && exists|k: int| #[trigger]
        is_field_at(d, FieldName::Declarator, k) && d.children[k].kind
            == NodeKind::ParenthesizedDeclarator {
        let k = choose|k: int| #[trigger]
            is_field_at(d, FieldName::Declarator, k) && d.children[k].kind
                == NodeKind::ParenthesizedDeclarator;
        field_found(d, FieldName::Declarator, k);
        assert(is_fn_pointer(d));
    }
}

/// A pointer in a declarator makes a pointer of what is declared behind it, an
/// array an array, and parentheses change nothing.
pub proof fn declarators_shape_types(n: NodeV, base: DescV, j: int)
    ensures
        n.kind == NodeKind::Identifier || n.kind == NodeKind::TypeIdentifier ==> declared_shape(
            n,
            base,
        ) == base,
        n.kind == NodeKind::PointerDeclarator && is_field_at(n, FieldName::Declarator, j)
            ==> declared_shape(n, base) == DescV::Ptr(
            Box::new(declared_shape(n.children[j], base)),
        ),
        n.kind == NodeKind::ArrayDeclarator && is_field_at(n, FieldName::Declarator, j)
            ==> declared_shape(n, base) == (DescV::Array {
            elem: Box::new(declared_shape(n.children[j], base)),
            size: None,
        }),
        n.kind == NodeKind::ParenthesizedDeclarator && is_first_named(n, j) ==> declared_shape(
            n,
            base,
        ) == declared_shape(n.children[j], base),
        n.kind == NodeKind::FunctionDeclarator && is_field_at(n, FieldName::Declarator, j)
            && n.children[j].kind == NodeKind::Identifier ==> declared_shape(n, base) == (
        DescV::FnPtr {
            ret: Box::new(declared_shape(n.children[j], base)),
            params: Seq::empty(),
        }),
{
    if is_field_at(n, FieldName::Declarator, j) {
        field_found(n, FieldName::Declarator, j);
    }
    if is_first_named(n, j) {
        first_named_found(n, j);
    }
}

/// A declarator of the form `(*name)(..)` declares a pointer to a function.
pub proof fn function_pointers_are_shaped(n: NodeV, base: DescV, j: int, i: int, k: int)
    requires
        n.kind == NodeKind::FunctionDeclarator,
        is_field_at(n, FieldName::Declarator, j),
        n.children[j].kind == NodeKind::ParenthesizedDeclarator,
        is_first_named(n.children[j], i),
        n.children[j].children[i].kind == NodeKind::PointerDeclarator,
        is_field_at(n.children[j].children[i], FieldName::Declarator, k),
    ensures
        declared_shape(n, base) == DescV::Ptr(
            Box::new(
                DescV::FnPtr {
                    ret: Box::new(
                        declared_shape(n.children[j].children[i].children[k], base),
                    ),
                    params: Seq::empty(),
                },
            ),
        ),
        is_fn_pointer(n),
{
    field_found(n, FieldName::Declarator, j);
    first_named_found(n.children[j], i);
    field_found(n.children[j].children[i], FieldName::Declarator, k);
}

proof fn alias_is_new(aliases: Seq<(Seq<char>, DescV)>, t: TableV, name: Seq<char>, d: DescV, i: int)
    requires
        t.aliases == aliases.push((name, d)),
        0 <= i <= aliases.len(),
        forall|j: int| i <= j < aliases.len() ==> (#[trigger] aliases[j]).0 != name,
    ensures
        t.alias(name, i) == Some(d),
    decreases aliases.len() - i,
{
    if i < aliases.len() {
        assert(t.aliases[i] == aliases[i]);
        assert(aliases[i].0 != name);
        alias_is_new(aliases, t, name, d, i + 1);
    }
}

/// A `typedef` of a type that is no structure makes its name stand for the type
/// that it declares, where the name stands for nothing yet.
pub proof fn typedefs_name_types(s: LowerV, n: NodeV, t: int, j: int)
    requires
        is_field_at(n, FieldName::Type, t),
        is_field_at(n, FieldName::Declarator, j),
        n.children[t].kind != NodeKind::StructSpecifier,
        n.children[t].kind != NodeKind::UnionSpecifier,
        ({
            let before = s.after_type(n.children[t]).0.p.types.aliases;
            forall|i: int|
                0 <= i < before.len() ==> (#[trigger] before[i]).0 != declared(
                    s.src,
                    n.children[j],
                ).0
        }),
    ensures
        s.after_typedef(n).p.types.alias(declared(s.src, n.children[j]).0, 0) == Some(
            declared_shape(n.children[j], s.after_type(n.children[t]).1),
        ),
{
    field_found(n, FieldName::Type, t);
    field_found(n, FieldName::Declarator, j);
    let (q, base) = s.after_type(n.children[t]);
    let name = declared(s.src, n.children[j]).0;
    let after = s.after_typedef(n).p.types;
    alias_is_new(
        q.p.types.aliases,
        after,
        name,
        declared_shape(n.children[j], base),
        0,
    );
}

proof fn edge_is_noted(
    edges: Seq<(Seq<char>, Seq<char>)>,
    derived: Seq<char>,
    base: Seq<char>,
)
    ensures
        derived.len() > 0 && base.len() > 0 ==> with_edge(edges, derived, base).contains(
            (derived, base),
        ),
        forall|e: (Seq<char>, Seq<char>)|
            edges.contains(e) ==> #[trigger] with_edge(edges, derived, base).contains(e),
{
    let after = with_edge(edges, derived, base);
    if derived.len() > 0 && base.len() > 0 && !edges.contains((derived, base)) {
        assert(after[after.len() - 1] == (derived, base));
    }
    assert forall|e: (Seq<char>, Seq<char>)| edges.contains(e) implies #[trigger] after.contains(
        e,
    ) by {
        let i = choose|i: int| 0 <= i < edges.len() && edges[i] == e;
        assert(after[i] == e);
    }
}

proof fn clause_is_noted(s: LowerV, clause: NodeV, derived: Seq<char>, i: int, k: int)
    requires
        0 <= i < k <= clause.children.len(),
        names_base(clause.children[i]),
        derived.len() > 0,
        s.class_name(text_of(s.src, clause.children[i])).len() > 0,
    ensures
        s.with_clause(clause, derived, k).p.inheritance.contains(
            (derived, s.class_name(text_of(s.src, clause.children[i]))),
        ),
    decreases k,
{
    let q = s.with_clause(clause, derived, k - 1);
    let c = clause.children[k - 1];
    edge_is_noted(q.p.inheritance, derived, s.class_name(text_of(s.src, c)));
    if i < k - 1 {
        clause_is_noted(s, clause, derived, i, k - 1);
    }
}

proof fn clause_keeps(s: LowerV, clause: NodeV, derived: Seq<char>, k: int)
    ensures
        forall|e: (Seq<char>, Seq<char>)|
            s.p.inheritance.contains(e) ==> #[trigger] s.with_clause(
                clause,
                derived,
                k,
            ).p.inheritance.contains(e),
        s.with_clause(clause, derived, k).src == s.src,
        s.with_clause(clause, derived, k).ns == s.ns,
    decreases k,
{
    if k > 0 {
        clause_keeps(s, clause, derived, k - 1);
        let q = s.with_clause(clause, derived, k - 1);
        let c = clause.children[k - 1];
        edge_is_noted(q.p.inheritance, derived, s.class_name(text_of(s.src, c)));
    }
}

proof fn bases_keep(s: LowerV, n: NodeV, derived: Seq<char>, i: int, k: int)
    requires
        0 <= i <= k,
    ensures
        forall|e: (Seq<char>, Seq<char>)|
            s.with_bases(n, derived, i).p.inheritance.contains(e) ==> #[trigger] s.with_bases(
                n,
                derived,
                k,
            ).p.inheritance.contains(e),
    decreases k - i,
{
    if i < k {
        bases_keep(s, n, derived, i, k - 1);
        let q = s.with_bases(n, derived, k - 1);
        let c = n.children[k - 1];
        clause_keeps(q, c, derived, c.children.len() as int);
    }
}

proof fn bases_keep_text(s: LowerV, n: NodeV, derived: Seq<char>, k: int)
    ensures
        s.with_bases(n, derived, k).src == s.src,
        s.with_bases(n, derived, k).ns == s.ns,
    decreases k,
{
    if k > 0 {
        bases_keep_text(s, n, derived, k - 1);
        let q = s.with_bases(n, derived, k - 1);
        let c = n.children[k - 1];
        clause_keeps(q, c, derived, c.children.len() as int);
    }
}

/// A class derives from every class that the list behind its name names, however
/// the list calls it.
pub proof fn classes_derive_from_their_bases(
    s: LowerV,
    n: NodeV,
    derived: Seq<char>,
    c: int,
    b: int,
)
    requires
        0 <= c < n.children.len(),
        n.children[c].kind == NodeKind::BaseClassClause,
        0 <= b < n.children[c].children.len(),
        ({
            let base = n.children[c].children[b];
            ||| base.kind == NodeKind::QualifiedIdentifier
            ||| base.kind == NodeKind::TypeIdentifier && base.named
            ||| base.kind == NodeKind::TemplateType && base.named
        }),
        derived.len() > 0,
        s.class_name(text_of(s.src, n.children[c].children[b])).len() > 0,
    ensures
        s.with_bases(n, derived, n.children.len() as int).p.inheritance.contains(
            (derived, s.class_name(text_of(s.src, n.children[c].children[b]))),
        ),
{
    let clause = n.children[c];
    let q = s.with_bases(n, derived, c);
    bases_keep_text(s, n, derived, c);
    let name = text_of(s.src, clause.children[b]);
    assert(q.class_name(name) == s.class_name(name));
    clause_is_noted(q, clause, derived, b, clause.children.len() as int);
    bases_keep(s, n, derived, c + 1, n.children.len() as int);
}

/// Whether a table has an entry of a structure with fields of these names.
pub open spec fn has_structure(t: TableV, tag: Seq<char>, names: Seq<Seq<char>>) -> bool {
    exists|k: int| #[trigger] is_structure_at(t, k, tag, names)
}

pub open spec fn is_structure_at(t: TableV, k: int, tag: Seq<char>, names: Seq<Seq<char>>) -> bool {
    &&& 0 <= k < t.types.len()
    &&& t.types[k].desc matches DescV::Struct { name, fields } && name == tag
    &&& t.types[k].fields.len() == names.len()
    &&& forall|i: int|
        0 <= i < names.len() ==> (#[trigger] t.types[k].fields[i]).name == names[i]
}

/// A structure with a tag that is not known yet is put into the table with the
/// fields that its body declares, in that order.
pub proof fn structures_have_their_fields(s: LowerV, n: NodeV, m: int, b: int)
    requires
        n.kind == NodeKind::StructSpecifier,
        is_field_at(n, FieldName::Name, m),
        is_field_at(n, FieldName::Body, b),
        s.tag_state(n).1.len() > 0,
        field_names(
            s.tag_state(n).0.src,
            n.children[b],
            n.children[b].children.len() as int,
        ).len() > 0,
        ({
            let (q, fields) = s.tag_state(n).0.after_fields(
                n.children[b],
                n.children[b].children.len() as int,
            );
            position_of_type(q.p.types.types, DescV::Struct { name: s.tag_state(n).1, fields }, 0)
                >= q.p.types.types.len()
        }),
    ensures
        s.after_struct(n).1 == s.tag_state(n).1,
        has_structure(
            s.after_struct(n).0.p.types,
            s.tag_state(n).1,
            field_names(
                s.tag_state(n).0.src,
                n.children[b],
                n.children[b].children.len() as int,
            ),
        ),
{
    field_found(n, FieldName::Body, b);
    let body = n.children[b];
    let (s0, tag) = s.tag_state(n);
    let len = body.children.len() as int;
    let (q, fields) = s0.after_fields(body, len);
    fields_are_those_declared(s0, body, len);
    let names = field_names(s0.src, body, len);
    let d = DescV::Struct { name: tag, fields };
    let t = q.p.types;
    let table = t.interned(d);
    position_behind(t.types, d, 0);
    let k = t.types.len() as int;
    assert(table.types[k].desc == d);
    assert(table.types[k].fields.len() == 0);
    last_is_found(t, d, 0);
    let l = LayoutV { table, fields: Seq::empty(), size: 0, align: 1 };
    fields_keep_their_order(l, fields, fields.len() as int, false);
    let laid = l.with_fields(fields, fields.len() as int, false);
    tables_grow(l, fields, fields.len() as int, false);
    let end = s.after_struct(n).0.p.types;
    assert(end == t.defined(d, fields, false));
    assert forall|i: int| 0 <= i < names.len() implies (#[trigger] end.types[k].fields[i]).name
        == names[i] by {
        assert(laid.fields[l.fields.len() + i].name == fields[i].0);
    }
    assert(is_structure_at(end, k, tag, names));
}

proof fn tables_grow(l: LayoutV, fields: Seq<(Seq<char>, DescV)>, n: int, overlay: bool)
    ensures
        l.with_fields(fields, n, overlay).table.types.len() >= l.table.types.len(),
    decreases n,
{
    if n > 0 {
        tables_grow(l, fields, n - 1, overlay);
    }
}

proof fn position_behind(types: Seq<TypeV>, d: DescV, i: int)
    requires
        0 <= i <= types.len(),
    ensures
        i <= position_of_type(types, d, i) <= types.len(),
    decreases types.len() - i,
{
    if i < types.len() {
        position_behind(types, d, i + 1);
    }
}

proof fn last_is_found(t: TableV, d: DescV, i: int)
    requires
        0 <= i <= t.types.len(),
        position_of_type(t.types, d, i) == t.types.len(),
        position_of_type(t.types, d, 0) == t.types.len(),
    ensures
        position_of_type(t.interned(d).types, d, i) == t.types.len(),
    decreases t.types.len() - i,
{
    let more = t.interned(d).types;
    assert(more.len() == t.types.len() + 1);
    if i < t.types.len() {
        assert(more[i] == t.types[i]);
        position_behind(t.types, d, i + 1);
        last_is_found(t, d, i + 1);
    } else {
        assert(more[i].desc == d);
    }
}

} // verus!
