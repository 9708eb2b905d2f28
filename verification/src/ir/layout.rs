//! What the table of types keeps: one entry for each type, and fields that do
//! not overlap.

use crate::ir::ids::{FieldId, TypeId};
use crate::ir::types::{
    position_of_type, rounded, stands_for, tag_of, DescV, LayoutV, TableV, TypeV,
};
use vstd::prelude::*;

verus! {

proof fn type_is_found(types: Seq<TypeV>, d: DescV, i: int)
    requires
        0 <= i <= types.len(),
    ensures
        ({
            let k = position_of_type(types, d, i);
            &&& i <= k <= types.len()
            &&& k < types.len() ==> stands_for(types[k].desc, d)
            &&& forall|j: int| i <= j < k ==> !stands_for((#[trigger] types[j]).desc, d)
        }),
    decreases types.len() - i,
{
    if i < types.len() && !stands_for(types[i].desc, d) {
        type_is_found(types, d, i + 1);
    }
}

proof fn type_stays(types: Seq<TypeV>, more: Seq<TypeV>, d: DescV, i: int)
    requires
        0 <= i <= types.len() <= more.len(),
        forall|j: int| 0 <= j < types.len() ==> #[trigger] more[j] == types[j],
        position_of_type(types, d, i) < types.len(),
    ensures
        position_of_type(more, d, i) == position_of_type(types, d, i),
    decreases types.len() - i,
{
    if i < types.len() {
        assert(more[i] == types[i]);
        if !stands_for(types[i].desc, d) {
            type_stays(types, more, d, i + 1);
        }
    }
}

/// A type that is put into the table is what its identifier leads to, a
/// structure or union by its tag and any other type as it is. What was there
/// stays under its identifier, and to put the type in once more changes nothing.
pub proof fn types_have_one_entry(t: TableV, d: DescV)
    requires
        t.types.len() < u32::MAX,
    ensures
        ({
            let u = t.interned(d);
            let found = u.desc(u.id_of(d));
            &&& found is Some
            &&& tag_of(d) is None ==> found == Some(d)
            &&& tag_of(d) is Some ==> tag_of(found->0) == tag_of(d)
            &&& forall|id: TypeId| t.desc(id) is Some ==> #[trigger] u.desc(id) == t.desc(id)
            &&& u.interned(d) == u
            &&& u.resolved(d) == u.id_of(d)
        }),
{
    type_is_found(t.types, d, 0);
    let u = t.interned(d);
    type_is_found(u.types, d, 0);
    let k = position_of_type(u.types, d, 0);
    if position_of_type(t.types, d, 0) >= t.types.len() {
        let last = u.types.len() - 1;
        assert(u.types[last].desc == d);
        assert(stands_for(u.types[last].desc, d));
        assert(k < u.types.len());
    }
}

/// An identifier that a type has stays its identifier while others come.
pub proof fn identifiers_stay(t: TableV, d: DescV, e: DescV)
    requires
        t.types.len() < u32::MAX,
        position_of_type(t.types, d, 0) < t.types.len(),
    ensures
        t.interned(e).id_of(d) == t.id_of(d),
        t.interned(e).resolved(d) == t.id_of(d),
{
    let u = t.interned(e);
    assert forall|j: int| 0 <= j < t.types.len() implies #[trigger] u.types[j] == t.types[j] by {}
    type_stays(t.types, u.types, d, 0);
}

/// The field with a name is the first of that name.
pub proof fn fields_are_found_by_name(t: TableV, ty: TypeId, name: Seq<char>, i: int)
    requires
        ty.0 < t.types.len(),
        0 <= i <= t.types[ty.0 as int].fields.len(),
    ensures
        match t.field_position(ty, name, i) {
            Some(k) => {
                let fields = t.types[ty.0 as int].fields;
                &&& i <= k < fields.len()
                &&& fields[k].name == name
                &&& forall|j: int| i <= j < k ==> (#[trigger] fields[j]).name != name
            },
            None => forall|j: int|
                i <= j < t.types[ty.0 as int].fields.len() ==> (
                #[trigger] t.types[ty.0 as int].fields[j]).name != name,
        },
    decreases t.types[ty.0 as int].fields.len() - i,
{
    if i < t.types[ty.0 as int].fields.len() && t.types[ty.0 as int].fields[i].name != name {
        fields_are_found_by_name(t, ty, name, i + 1);
    }
}

/// A field with a number is the one at that position.
pub proof fn fields_are_numbered(t: TableV, ty: TypeId, k: u32)
    requires
        ty.0 < t.types.len(),
        k < t.types[ty.0 as int].fields.len(),
    ensures
        t.field(ty, FieldId(k)) == Some(t.types[ty.0 as int].fields[k as int]),
{
}

/// The values of C take what they take on a machine of 64 bits: a pointer, a
/// function pointer and a `long` take eight bytes, and an array takes what its
/// elements take together.
pub proof fn values_take_their_bytes(t: TableV, inner: DescV, n: u64)
    requires
        t.extent(inner).0 * n <= u64::MAX,
    ensures
        t.extent(DescV::Char).0 == 1,
        t.extent(DescV::Bool).0 == 1,
        t.extent(DescV::Short).0 == 2,
        t.extent(DescV::Int).0 == 4,
        t.extent(DescV::Float).0 == 4,
        t.extent(DescV::Long) == (8u64, 8u64),
        t.extent(DescV::Double) == (8u64, 8u64),
        t.extent(DescV::Ptr(Box::new(inner))) == (8u64, 8u64),
        t.extent(DescV::Array { elem: Box::new(inner), size: Some(n) }) == (
            (t.extent(inner).0 * n) as u64,
            t.extent(inner).1,
        ),
{
    assert(t.extent(inner).0 * n >= 0) by (nonlinear_arith)
        requires
            t.extent(inner).0 >= 0,
            n >= 0,
    ;
}

proof fn rounded_is_multiple(n: u64, align: u64)
    requires
        align > 0,
        n + align <= u64::MAX,
    ensures
        rounded(n, align) >= n,
        rounded(n, align) < n + align,
        rounded(n, align) as int % align as int == 0,
{
    let a = align as int;
    let m = n as int;
    if m % a != 0 {
        vstd::arithmetic::div_mod::lemma_fundamental_div_mod(m, a);
        let q = m / a;
        assert(m + (a - m % a) == a * (q + 1)) by (nonlinear_arith)
            requires
                m == a * q + m % a,
        ;
        vstd::arithmetic::div_mod::lemma_mod_multiples_basic(q + 1, a);
        assert((q + 1) * a == a * (q + 1)) by (nonlinear_arith);
    }
}

/// A field of a structure lies behind all fields before it, on an address that
/// suits it, and the structure reaches to its end. A field of a union lies at the
/// start, and the union reaches to the end of the longest. What was laid out
/// before stays.
pub proof fn fields_do_not_overlap(l: LayoutV, name: Seq<char>, d: DescV)
    requires
        ({
            let (size, align) = l.table.extent(d);
            align > 0 && l.size + align + size <= u64::MAX
        }),
    ensures
        ({
            let (size, align) = l.table.extent(d);
            let s = l.with_field(name, d, false);
            let u = l.with_field(name, d, true);
            let at = s.fields.last();
            &&& s.fields.drop_last() == l.fields
            &&& at.name == name
            &&& at.offset >= l.size
            &&& at.offset < l.size + align
            &&& at.offset as int % align as int == 0
            &&& s.size == at.offset + size
            &&& s.align >= align && s.align >= l.align
            &&& u.fields.drop_last() == l.fields
            &&& u.fields.last().name == name
            &&& u.fields.last().offset == 0
            &&& u.size >= size && u.size >= l.size && (u.size == size || u.size == l.size)
            &&& u.align >= align && u.align >= l.align
        }),
{
    let (size, align) = l.table.extent(d);
    rounded_is_multiple(l.size, align);
    let s = l.with_field(name, d, false);
    let u = l.with_field(name, d, true);
    assert(s.fields.drop_last() =~= l.fields);
    assert(u.fields.drop_last() =~= l.fields);
}

/// The fields of a structure or union are laid out in the order in which they are
/// declared, each under its name.
pub proof fn fields_keep_their_order(
    l: LayoutV,
    fields: Seq<(Seq<char>, DescV)>,
    n: int,
    overlay: bool,
)
    requires
        0 <= n <= fields.len(),
    ensures
        ({
            let r = l.with_fields(fields, n, overlay);
            &&& r.fields.len() == l.fields.len() + n
            &&& forall|i: int| 0 <= i < l.fields.len() ==> #[trigger] r.fields[i] == l.fields[i]
            &&& forall|i: int|
                0 <= i < n ==> (#[trigger] r.fields[l.fields.len() + i]).name == fields[i].0
            &&& overlay ==> forall|i: int|
                0 <= i < n ==> (#[trigger] r.fields[l.fields.len() + i]).offset == 0
        }),
    decreases n,
{
    if n > 0 {
        fields_keep_their_order(l, fields, n - 1, overlay);
        let before = l.with_fields(fields, n - 1, overlay);
        let r = l.with_fields(fields, n, overlay);
        assert forall|i: int| 0 <= i < n implies (#[trigger] r.fields[l.fields.len() + i]).name
            == fields[i].0 && (overlay ==> r.fields[l.fields.len() + i].offset == 0) by {
            if i < n - 1 {
                assert(r.fields[l.fields.len() + i] == before.fields[l.fields.len() + i]);
            }
        }
    }
}

/// The first definition of a tag gives it its fields, and later ones change
/// nothing.
pub proof fn first_definitions_count(
    t: TableV,
    d: DescV,
    fields: Seq<(Seq<char>, DescV)>,
    overlay: bool,
)
    requires
        position_of_type(t.types, d, 0) < t.types.len(),
        t.types[position_of_type(t.types, d, 0)].fields.len() > 0,
    ensures
        t.defined(d, fields, overlay) == t,
{
}

} // verus!
