//! The types of a program and how they are laid out.

use crate::ir::ids::{FieldId, TypeId};
use crate::text::{cat2, cat3, decimal, decimal_of, owned, str_eq};
use vstd::prelude::*;

verus! {

broadcast use crate::text::take_push;

/// A type.
#[derive(Debug)]
pub enum TypeDesc {
    Void,
    Char,
    Bool,
    Short,
    Int,
    Long,
    LongLong,
    Float,
    Double,
    SizeT,
    Unknown,
    Ptr(Box<TypeDesc>),
    Array { elem: Box<TypeDesc>, size: Option<u64> },
    Struct { name: String, fields: Vec<(String, TypeDesc)> },
    Union { name: String, fields: Vec<(String, TypeDesc)> },
    FnPtr { ret: Box<TypeDesc>, params: Vec<TypeDesc> },
}

/// The mathematical form of a [`TypeDesc`].
pub enum DescV {
    Void,
    Char,
    Bool,
    Short,
    Int,
    Long,
    LongLong,
    Float,
    Double,
    SizeT,
    Unknown,
    Ptr(Box<DescV>),
    Array { elem: Box<DescV>, size: Option<u64> },
    Struct { name: Seq<char>, fields: Seq<(Seq<char>, DescV)> },
    Union { name: Seq<char>, fields: Seq<(Seq<char>, DescV)> },
    FnPtr { ret: Box<DescV>, params: Seq<DescV> },
}

/// The mathematical form of a type.
pub open spec fn desc_view(d: TypeDesc) -> DescV
    decreases d,
{
    match d {
        TypeDesc::Void => DescV::Void,
        TypeDesc::Char => DescV::Char,
        TypeDesc::Bool => DescV::Bool,
        TypeDesc::Short => DescV::Short,
        TypeDesc::Int => DescV::Int,
        TypeDesc::Long => DescV::Long,
        TypeDesc::LongLong => DescV::LongLong,
        TypeDesc::Float => DescV::Float,
        TypeDesc::Double => DescV::Double,
        TypeDesc::SizeT => DescV::SizeT,
        TypeDesc::Unknown => DescV::Unknown,
        TypeDesc::Ptr(inner) => DescV::Ptr(Box::new(desc_view(*inner))),
        TypeDesc::Array { elem, size } => DescV::Array { elem: Box::new(desc_view(*elem)), size },
        TypeDesc::Struct { name, fields } => DescV::Struct {
            name: name@,
            fields: fields_view(fields@),
        },
        TypeDesc::Union { name, fields } => DescV::Union {
            name: name@,
            fields: fields_view(fields@),
        },
        TypeDesc::FnPtr { ret, params } => DescV::FnPtr {
            ret: Box::new(desc_view(*ret)),
            params: params_view(params@),
        },
    }
}

/// The mathematical form of a list of fields.
pub open spec fn fields_view(s: Seq<(String, TypeDesc)>) -> Seq<(Seq<char>, DescV)>
    decreases s,
{
    if s.len() == 0 {
        Seq::empty()
    } else {
        fields_view(s.drop_last()).push((s.last().0@, desc_view(s.last().1)))
    }
}

/// The mathematical form of a list of types.
pub open spec fn params_view(s: Seq<TypeDesc>) -> Seq<DescV>
    decreases s,
{
    if s.len() == 0 {
        Seq::empty()
    } else {
        params_view(s.drop_last()).push(desc_view(s.last()))
    }
}

impl View for TypeDesc {
    type V = DescV;

    open spec fn view(&self) -> DescV {
        desc_view(*self)
    }
}

/// A list of fields, element by element.
pub broadcast proof fn fields_view_index(s: Seq<(String, TypeDesc)>)
    ensures
        (#[trigger] fields_view(s)).len() == s.len(),
        forall|i: int|
            0 <= i < s.len() ==> #[trigger] fields_view(s)[i] == (s[i].0@, desc_view(s[i].1)),
    decreases s.len(),
{
    if s.len() > 0 {
        fields_view_index(s.drop_last());
        assert forall|i: int| 0 <= i < s.len() implies #[trigger] fields_view(s)[i] == (
            s[i].0@,
            desc_view(s[i].1),
        ) by {
            if i < s.len() - 1 {
                assert(fields_view(s)[i] == fields_view(s.drop_last())[i]);
            }
        }
    }
}

/// A list of types, element by element.
pub broadcast proof fn params_view_index(s: Seq<TypeDesc>)
    ensures
        (#[trigger] params_view(s)).len() == s.len(),
        forall|i: int| 0 <= i < s.len() ==> #[trigger] params_view(s)[i] == desc_view(s[i]),
    decreases s.len(),
{
    if s.len() > 0 {
        params_view_index(s.drop_last());
        assert forall|i: int| 0 <= i < s.len() implies #[trigger] params_view(s)[i] == desc_view(
            s[i],
        ) by {
            if i < s.len() - 1 {
                assert(params_view(s)[i] == params_view(s.drop_last())[i]);
            }
        }
    }
}

/// A copy of a type.
pub fn clone_desc(d: &TypeDesc) -> (r: TypeDesc)
    ensures
        r@ == d@,
    decreases d,
{
    match d {
        TypeDesc::Void => TypeDesc::Void,
        TypeDesc::Char => TypeDesc::Char,
        TypeDesc::Bool => TypeDesc::Bool,
        TypeDesc::Short => TypeDesc::Short,
        TypeDesc::Int => TypeDesc::Int,
        TypeDesc::Long => TypeDesc::Long,
        TypeDesc::LongLong => TypeDesc::LongLong,
        TypeDesc::Float => TypeDesc::Float,
        TypeDesc::Double => TypeDesc::Double,
        TypeDesc::SizeT => TypeDesc::SizeT,
        TypeDesc::Unknown => TypeDesc::Unknown,
        TypeDesc::Ptr(inner) => TypeDesc::Ptr(Box::new(clone_desc(inner))),
        TypeDesc::Array { elem, size } => TypeDesc::Array {
            elem: Box::new(clone_desc(elem)),
            size: *size,
        },
        TypeDesc::Struct { name, fields } => TypeDesc::Struct {
            name: name.clone(),
            fields: clone_fields(fields),
        },
        TypeDesc::Union { name, fields } => TypeDesc::Union {
            name: name.clone(),
            fields: clone_fields(fields),
        },
        TypeDesc::FnPtr { ret, params } => TypeDesc::FnPtr {
            ret: Box::new(clone_desc(ret)),
            params: clone_params(params),
        },
    }
}

/// A copy of a list of fields.
pub fn clone_fields(fields: &Vec<(String, TypeDesc)>) -> (r: Vec<(String, TypeDesc)>)
    ensures
        fields_view(r@) == fields_view(fields@),
    decreases fields,
{
    broadcast use fields_view_index;

    let mut out: Vec<(String, TypeDesc)> = Vec::new();
    let mut i: usize = 0;
    while i < fields.len()
        invariant
            i <= fields@.len(),
            out@.len() == i,
            forall|j: int|
                0 <= j < i ==> (#[trigger] out@[j]).0@ == fields@[j].0@ && desc_view(out@[j].1)
                    == desc_view(fields@[j].1),
        decreases fields@.len() - i,
    {
        assert(decreases_to!(fields => fields@[i as int].1));
        let d = clone_desc(&fields[i].1);
        out.push((fields[i].0.clone(), d));
        i = i + 1;
    }
    assert(fields_view(out@) =~= fields_view(fields@));
    out
}

fn clone_params(params: &Vec<TypeDesc>) -> (r: Vec<TypeDesc>)
    ensures
        params_view(r@) == params_view(params@),
    decreases params,
{
    broadcast use params_view_index;

    let mut out: Vec<TypeDesc> = Vec::new();
    let mut i: usize = 0;
    while i < params.len()
        invariant
            i <= params@.len(),
            out@.len() == i,
            forall|j: int| 0 <= j < i ==> desc_view(#[trigger] out@[j]) == desc_view(params@[j]),
        decreases params@.len() - i,
    {
        assert(decreases_to!(params => params@[i as int]));
        out.push(clone_desc(&params[i]));
        i = i + 1;
    }
    assert(params_view(out@) =~= params_view(params@));
    out
}

fn same_fields(a: &Vec<(String, TypeDesc)>, b: &Vec<(String, TypeDesc)>) -> (r: bool)
    ensures
        r == (fields_view(a@) == fields_view(b@)),
    decreases a,
{
    broadcast use fields_view_index;

    if a.len() != b.len() {
        return false;
    }
    let mut i: usize = 0;
    while i < a.len()
        invariant
            i <= a@.len() == b@.len(),
            forall|j: int| 0 <= j < i ==> #[trigger] fields_view(a@)[j] == fields_view(b@)[j],
        decreases a@.len() - i,
    {
        proof {
            fields_view_index(a@);
            fields_view_index(b@);
        }
        assert(decreases_to!(a => a@[i as int].1));
        if !str_eq(a[i].0.as_str(), b[i].0.as_str()) || !same_desc(&a[i].1, &b[i].1) {
            assert(fields_view(a@)[i as int] != fields_view(b@)[i as int]);
            return false;
        }
        i = i + 1;
    }
    assert(fields_view(a@) =~= fields_view(b@));
    true
}

fn same_params(a: &Vec<TypeDesc>, b: &Vec<TypeDesc>) -> (r: bool)
    ensures
        r == (params_view(a@) == params_view(b@)),
    decreases a,
{
    broadcast use params_view_index;

    if a.len() != b.len() {
        return false;
    }
    let mut i: usize = 0;
    while i < a.len()
        invariant
            i <= a@.len() == b@.len(),
            forall|j: int| 0 <= j < i ==> #[trigger] params_view(a@)[j] == params_view(b@)[j],
        decreases a@.len() - i,
    {
        proof {
            params_view_index(a@);
            params_view_index(b@);
        }
        assert(decreases_to!(a => a@[i as int]));
        if !same_desc(&a[i], &b[i]) {
            assert(params_view(a@)[i as int] != params_view(b@)[i as int]);
            return false;
        }
        i = i + 1;
    }
    assert(params_view(a@) =~= params_view(b@));
    true
}

/// Whether two types are the same.
pub fn same_desc(a: &TypeDesc, b: &TypeDesc) -> (r: bool)
    ensures
        r == (a@ == b@),
    decreases a,
{
    match (a, b) {
        (TypeDesc::Void, TypeDesc::Void) => true,
        (TypeDesc::Char, TypeDesc::Char) => true,
        (TypeDesc::Bool, TypeDesc::Bool) => true,
        (TypeDesc::Short, TypeDesc::Short) => true,
        (TypeDesc::Int, TypeDesc::Int) => true,
        (TypeDesc::Long, TypeDesc::Long) => true,
        (TypeDesc::LongLong, TypeDesc::LongLong) => true,
        (TypeDesc::Float, TypeDesc::Float) => true,
        (TypeDesc::Double, TypeDesc::Double) => true,
        (TypeDesc::SizeT, TypeDesc::SizeT) => true,
        (TypeDesc::Unknown, TypeDesc::Unknown) => true,
        (TypeDesc::Ptr(x), TypeDesc::Ptr(y)) => same_desc(x, y),
        (TypeDesc::Array { elem: x, size: m }, TypeDesc::Array { elem: y, size: n }) => *m == *n
            && same_desc(x, y),
        (
            TypeDesc::Struct { name: x, fields: f },
            TypeDesc::Struct { name: y, fields: g },
        ) => str_eq(x.as_str(), y.as_str()) && same_fields(f, g),
        (
            TypeDesc::Union { name: x, fields: f },
            TypeDesc::Union { name: y, fields: g },
        ) => str_eq(x.as_str(), y.as_str()) && same_fields(f, g),
        (
            TypeDesc::FnPtr { ret: x, params: p },
            TypeDesc::FnPtr { ret: y, params: q },
        ) => same_desc(x, y) && same_params(p, q),
        _ => false,
    }
}

/// What a type is called.
pub open spec fn name_of_type(d: DescV) -> Seq<char>
    decreases d,
{
    match d {
        DescV::Struct { name, fields } => name,
        DescV::Union { name, fields } => name,
        DescV::Ptr(inner) => name_of_type(*inner) + "*"@,
        DescV::Array { elem, size } => name_of_type(*elem) + "["@ + (match size {
            Some(n) => decimal_of(n as nat),
            None => Seq::empty(),
        }) + "]"@,
        DescV::FnPtr { ret, params } => "fn_ptr"@,
        DescV::Void => "void"@,
        DescV::Char => "char"@,
        DescV::Bool => "bool"@,
        DescV::Short => "short"@,
        DescV::Int => "int"@,
        DescV::Long => "long"@,
        DescV::LongLong => "long long"@,
        DescV::Float => "float"@,
        DescV::Double => "double"@,
        DescV::SizeT => "size_t"@,
        DescV::Unknown => "unknown"@,
    }
}

pub fn desc_name(desc: &TypeDesc) -> (r: String)
    ensures
        r@ == name_of_type(desc@),
    decreases desc,
{
    match desc {
        TypeDesc::Struct { name, fields } => name.clone(),
        TypeDesc::Union { name, fields } => name.clone(),
        TypeDesc::Ptr(inner) => cat2(desc_name(inner).as_str(), "*"),
        TypeDesc::Array { elem, size } => {
            let n = match size {
                Some(s) => decimal(*s),
                None => String::new(),
            };
            assert(size is None ==> n@ =~= Seq::<char>::empty());
            cat2(cat3(desc_name(elem).as_str(), "[", n.as_str()).as_str(), "]")
        },
        TypeDesc::FnPtr { ret, params } => owned("fn_ptr"),
        TypeDesc::Void => owned("void"),
        TypeDesc::Char => owned("char"),
        TypeDesc::Bool => owned("bool"),
        TypeDesc::Short => owned("short"),
        TypeDesc::Int => owned("int"),
        TypeDesc::Long => owned("long"),
        TypeDesc::LongLong => owned("long long"),
        TypeDesc::Float => owned("float"),
        TypeDesc::Double => owned("double"),
        TypeDesc::SizeT => owned("size_t"),
        TypeDesc::Unknown => owned("unknown"),
    }
}

/// What kind of type it is, in one word.
pub open spec fn kind_of_type(d: DescV) -> Seq<char> {
    match d {
        DescV::Struct { name, fields } => "struct"@,
        DescV::Union { name, fields } => "union"@,
        DescV::Ptr(inner) => "ptr"@,
        DescV::Array { elem, size } => "array"@,
        _ => name_of_type(d),
    }
}

pub fn type_kind(desc: &TypeDesc) -> (r: String)
    ensures
        r@ == kind_of_type(desc@),
{
    match desc {
        TypeDesc::Struct { name, fields } => owned("struct"),
        TypeDesc::Union { name, fields } => owned("union"),
        TypeDesc::Ptr(inner) => owned("ptr"),
        TypeDesc::Array { elem, size } => owned("array"),
        _ => desc_name(desc),
    }
}

/// Tags of structures and unions.
#[derive(Debug, Clone, Copy, PartialEq, Eq, Structural)]
pub enum TypeKind {
    Struct,
    Union,
}

/// A field in its place.
#[derive(Debug)]
pub struct FieldLayout {
    pub name: String,
    pub type_id: TypeId,
    pub offset: u64,
}

/// The mathematical form of a [`FieldLayout`].
pub struct FieldV {
    pub name: Seq<char>,
    pub type_id: TypeId,
    pub offset: u64,
}

impl View for FieldLayout {
    type V = FieldV;

    open spec fn view(&self) -> FieldV {
        FieldV { name: self.name@, type_id: self.type_id, offset: self.offset }
    }
}

/// The fields of a type; the position of each is its [`FieldId`].
#[derive(Debug)]
pub struct Layout {
    pub fields: Vec<FieldLayout>,
}

pub open spec fn layout_view(s: Seq<FieldLayout>) -> Seq<FieldV> {
    Seq::new(s.len(), |i: int| s[i]@)
}

/// A type in the table.
#[derive(Debug)]
pub struct TypeInfo {
    pub id: TypeId,
    pub desc: TypeDesc,
    pub size: u64,
    pub align: u64,
    pub layout: Layout,
}

/// The mathematical form of a [`TypeInfo`].
#[verifier::ext_equal]
pub struct TypeV {
    pub id: TypeId,
    pub desc: DescV,
    pub size: u64,
    pub align: u64,
    pub fields: Seq<FieldV>,
}

impl View for TypeInfo {
    type V = TypeV;

    open spec fn view(&self) -> TypeV {
        TypeV {
            id: self.id,
            desc: self.desc@,
            size: self.size,
            align: self.align,
            fields: layout_view(self.layout.fields@),
        }
    }
}

pub open spec fn types_view(s: Seq<TypeInfo>) -> Seq<TypeV> {
    Seq::new(s.len(), |i: int| s[i]@)
}

pub open spec fn aliases_view(s: Seq<(String, TypeDesc)>) -> Seq<(Seq<char>, DescV)> {
    Seq::new(s.len(), |i: int| (s[i].0@, s[i].1@))
}

/// All types of a program.
#[derive(Debug)]
pub struct TypeTable {
    pub types: Vec<TypeInfo>,
    pub aliases: Vec<(String, TypeDesc)>,
}

/// The mathematical form of a [`TypeTable`].
#[verifier::ext_equal]
pub struct TableV {
    pub types: Seq<TypeV>,
    pub aliases: Seq<(Seq<char>, DescV)>,
}

impl View for TypeTable {
    type V = TableV;

    open spec fn view(&self) -> TableV {
        TableV { types: types_view(self.types@), aliases: aliases_view(self.aliases@) }
    }
}

/// The tag of a structure or a union.
pub open spec fn tag_of(d: DescV) -> Option<(TypeKind, Seq<char>)> {
    match d {
        DescV::Struct { name, fields } => if name.len() > 0 {
            Some((TypeKind::Struct, name))
        } else {
            None
        },
        DescV::Union { name, fields } => if name.len() > 0 {
            Some((TypeKind::Union, name))
        } else {
            None
        },
        _ => None,
    }
}

/// Whether the entry is the one that a type stands for: the one with its
/// tag, or else the one that is the same.
pub open spec fn stands_for(entry: DescV, d: DescV) -> bool {
    match tag_of(d) {
        Some(t) => tag_of(entry) == Some(t),
        None => entry == d,
    }
}

/// The position of the first entry from `i` on that a type stands for; the
/// length if there is none.
pub open spec fn position_of_type(types: Seq<TypeV>, d: DescV, i: int) -> int
    decreases types.len() - i,
{
    if i < 0 || i >= types.len() || stands_for(types[i].desc, d) {
        i
    } else {
        position_of_type(types, d, i + 1)
    }
}

pub open spec fn sat_u64(n: int) -> u64 {
    if n > u64::MAX {
        u64::MAX
    } else if n < 0 {
        0
    } else {
        n as u64
    }
}

/// The next multiple of `align` from `n` on.
pub open spec fn rounded(n: u64, align: u64) -> u64 {
    if align == 0 || n % align == 0 {
        n
    } else {
        sat_u64(n + (align - n % align))
    }
}

impl TableV {
    /// How many bytes a value takes, and on what its address is aligned. A
    /// structure that is not defined takes none.
    pub open spec fn extent(self, d: DescV) -> (u64, u64)
        decreases d,
    {
        match d {
            DescV::Void | DescV::Unknown => (0, 1),
            DescV::Char | DescV::Bool => (1, 1),
            DescV::Short => (2, 2),
            DescV::Int | DescV::Float => (4, 4),
            DescV::Array { elem, size } => {
                let (s, a) = self.extent(*elem);
                (
                    match size {
                        Some(n) => sat_u64(s * n),
                        None => 0,
                    },
                    a,
                )
            },
            DescV::Struct { name, fields } => self.tag_extent(d),
            DescV::Union { name, fields } => self.tag_extent(d),
            _ => (8, 8),
        }
    }

    pub open spec fn tag_extent(self, d: DescV) -> (u64, u64) {
        let k = position_of_type(self.types, d, 0);
        if k < self.types.len() {
            (self.types[k].size, self.types[k].align)
        } else {
            (0, 1)
        }
    }

    /// With the type in it.
    pub open spec fn interned(self, d: DescV) -> TableV {
        if position_of_type(self.types, d, 0) < self.types.len() {
            self
        } else {
            let (size, align) = self.extent(d);
            TableV {
                types: self.types.push(
                    TypeV {
                        id: TypeId(self.types.len() as u32),
                        desc: d,
                        size,
                        align,
                        fields: Seq::empty(),
                    },
                ),
                ..self
            }
        }
    }

    /// The identifier that a type has once it is in the table.
    pub open spec fn id_of(self, d: DescV) -> TypeId {
        TypeId(position_of_type(self.types, d, 0) as u32)
    }

    /// The identifier that a type goes by; that of `void` if it is not in
    /// the table.
    pub open spec fn resolved(self, d: DescV) -> TypeId {
        if position_of_type(self.types, d, 0) < self.types.len() {
            self.id_of(d)
        } else {
            TypeId(0)
        }
    }

    /// The structure or union with a tag.
    pub open spec fn tagged(self, name: Seq<char>, kind: TypeKind) -> Option<TypeId> {
        let d = match kind {
            TypeKind::Struct => DescV::Struct { name, fields: Seq::empty() },
            TypeKind::Union => DescV::Union { name, fields: Seq::empty() },
        };
        if name.len() > 0 && position_of_type(self.types, d, 0) < self.types.len() {
            Some(self.id_of(d))
        } else {
            None
        }
    }

    /// What a type is.
    pub open spec fn desc(self, id: TypeId) -> Option<DescV> {
        if id.0 < self.types.len() {
            Some(self.types[id.0 as int].desc)
        } else {
            None
        }
    }

    /// A field of a type.
    pub open spec fn field(self, id: TypeId, field: FieldId) -> Option<FieldV> {
        if id.0 < self.types.len() && field.0 < self.types[id.0 as int].fields.len() {
            Some(self.types[id.0 as int].fields[field.0 as int])
        } else {
            None
        }
    }
}

/// Fields being laid out.
#[verifier::ext_equal]
pub struct LayoutV {
    pub table: TableV,
    pub fields: Seq<FieldV>,
    pub size: u64,
    pub align: u64,
}

impl LayoutV {
    /// With one more field: behind the others in a structure, over them in a
    /// union.
    pub open spec fn with_field(self, name: Seq<char>, d: DescV, overlay: bool) -> LayoutV {
        let (s, a) = self.table.extent(d);
        let table = self.table.interned(d);
        let offset = if overlay {
            0
        } else {
            rounded(self.size, a)
        };
        let end = sat_u64(offset + s);
        LayoutV {
            table,
            fields: self.fields.push(FieldV { name, type_id: table.id_of(d), offset }),
            size: if end > self.size {
                end
            } else {
                self.size
            },
            align: if a > self.align {
                a
            } else {
                self.align
            },
        }
    }

    pub open spec fn with_fields(self, fields: Seq<(Seq<char>, DescV)>, n: int, overlay: bool)
        -> LayoutV
        decreases n,
    {
        if n <= 0 {
            self
        } else {
            self.with_fields(fields, n - 1, overlay).with_field(
                fields[n - 1].0,
                fields[n - 1].1,
                overlay,
            )
        }
    }
}

impl TableV {
    /// With a structure or union that has fields. The first definition of a
    /// tag counts.
    pub open spec fn defined(self, d: DescV, fields: Seq<(Seq<char>, DescV)>, overlay: bool)
        -> TableV {
        let table = self.interned(d);
        let k = position_of_type(table.types, d, 0);
        if k >= table.types.len() || table.types[k].fields.len() > 0 {
            table
        } else {
            let laid = LayoutV { table, fields: Seq::empty(), size: 0, align: 1 }.with_fields(
                fields,
                fields.len() as int,
                overlay,
            );
            TableV {
                types: laid.table.types.update(
                    k,
                    TypeV {
                        id: TypeId(k as u32),
                        desc: d,
                        size: rounded(laid.size, laid.align),
                        align: laid.align,
                        fields: laid.fields,
                    },
                ),
                ..laid.table
            }
        }
    }

    /// What an alias stands for.
    pub open spec fn alias(self, name: Seq<char>, i: int) -> Option<DescV>
        decreases self.aliases.len() - i,
    {
        if i < 0 || i >= self.aliases.len() {
            None
        } else if self.aliases[i].0 == name {
            Some(self.aliases[i].1)
        } else {
            self.alias(name, i + 1)
        }
    }

    /// The position of the field with a name, from `i` on.
    pub open spec fn field_position(self, ty: TypeId, name: Seq<char>, i: int) -> Option<int>
        decreases self.types[ty.0 as int].fields.len() - i,
    {
        if ty.0 >= self.types.len() || i < 0 || i >= self.types[ty.0 as int].fields.len() {
            None
        } else if self.types[ty.0 as int].fields[i].name == name {
            Some(i)
        } else {
            self.field_position(ty, name, i + 1)
        }
    }
}

fn same_tag(a: &TypeDesc, b: &TypeDesc) -> (r: bool)
    ensures
        r == stands_for(a@, b@),
{
    match b {
        TypeDesc::Struct { name: y, fields: g } => {
            if y.as_str().is_empty() {
                same_desc(a, b)
            } else {
                match a {
                    TypeDesc::Struct { name: x, fields: f } => str_eq(x.as_str(), y.as_str()),
                    _ => false,
                }
            }
        },
        TypeDesc::Union { name: y, fields: g } => {
            if y.as_str().is_empty() {
                same_desc(a, b)
            } else {
                match a {
                    TypeDesc::Union { name: x, fields: f } => str_eq(x.as_str(), y.as_str()),
                    _ => false,
                }
            }
        },
        _ => same_desc(a, b),
    }
}

fn mul_u64(a: u64, b: u64) -> (r: u64)
    ensures
        r == sat_u64(a * b),
{
    assert(0 <= a * b <= 0xffff_ffff_ffff_ffff * 0xffff_ffff_ffff_ffff) by (nonlinear_arith)
        requires
            0 <= a <= 0xffff_ffff_ffff_ffff,
            0 <= b <= 0xffff_ffff_ffff_ffff,
    ;
    let p = (a as u128) * (b as u128);
    if p > 0xffff_ffff_ffff_ffff {
        u64::MAX
    } else {
        p as u64
    }
}

fn add_u64(a: u64, b: u64) -> (r: u64)
    ensures
        r == sat_u64(a + b),
{
    if a > u64::MAX - b {
        u64::MAX
    } else {
        a + b
    }
}

fn round_up(n: u64, align: u64) -> (r: u64)
    ensures
        r == rounded(n, align),
{
    if align == 0 || n % align == 0 {
        n
    } else {
        add_u64(n, align - n % align)
    }
}

impl TypeTable {
    /// A table that holds nothing but `void` and `int`.
    pub fn new() -> (r: TypeTable)
        ensures
            r@ == (TableV { types: Seq::empty(), aliases: Seq::empty() }).interned(
                DescV::Void,
            ).interned(DescV::Int),
    {
        let mut r = TypeTable { types: Vec::new(), aliases: Vec::new() };
        assert(r@ =~= (TableV { types: Seq::empty(), aliases: Seq::empty() }));
        r.intern(TypeDesc::Void);
        r.intern(TypeDesc::Int);
        r
    }

    fn position(&self, d: &TypeDesc) -> (r: usize)
        ensures
            r == position_of_type(self@.types, d@, 0),
            r <= self.types@.len(),
            r < self.types@.len() ==> stands_for(self@.types[r as int].desc, d@),
    {
        let mut i: usize = 0;
        while i < self.types.len()
            invariant
                i <= self.types@.len(),
                position_of_type(self@.types, d@, i as int) == position_of_type(
                    self@.types,
                    d@,
                    0,
                ),
            decreases self.types@.len() - i,
        {
            assert(self@.types[i as int].desc == self.types@[i as int].desc@);
            if same_tag(&self.types[i].desc, d) {
                return i;
            }
            i = i + 1;
        }
        i
    }

    fn extent(&self, d: &TypeDesc) -> (r: (u64, u64))
        ensures
            r == self@.extent(d@),
        decreases d,
    {
        match d {
            TypeDesc::Void | TypeDesc::Unknown => (0, 1),
            TypeDesc::Char | TypeDesc::Bool => (1, 1),
            TypeDesc::Short => (2, 2),
            TypeDesc::Int | TypeDesc::Float => (4, 4),
            TypeDesc::Array { elem, size } => {
                let (s, a) = self.extent(elem);
                match size {
                    Some(n) => (mul_u64(s, *n), a),
                    None => (0, a),
                }
            },
            TypeDesc::Struct { name, fields } => self.tag_extent(d),
            TypeDesc::Union { name, fields } => self.tag_extent(d),
            _ => (8, 8),
        }
    }

    fn tag_extent(&self, d: &TypeDesc) -> (r: (u64, u64))
        ensures
            r == self@.tag_extent(d@),
    {
        let k = self.position(d);
        if k < self.types.len() {
            (self.types[k].size, self.types[k].align)
        } else {
            (0, 1)
        }
    }

    /// The identifier of a type, which is added if it is new.
    pub fn intern(&mut self, desc: TypeDesc) -> (r: TypeId)
        ensures
            final(self)@ == old(self)@.interned(desc@),
            r == final(self)@.id_of(desc@),
    {
        let k = self.position(&desc);
        if k == self.types.len() {
            let (size, align) = self.extent(&desc);
            let ghost before = self.types@;
            let ghost d = desc@;
            let info = TypeInfo {
                id: TypeId(k as u32),
                desc,
                size,
                align,
                layout: Layout { fields: Vec::new() },
            };
            assert(info@.fields =~= Seq::<FieldV>::empty());
            self.types.push(info);
            assert(types_view(self.types@) =~= types_view(before).push(info@));
            proof {
                position_of_pushed_type(types_view(before), info@, d, 0);
            }
        }
        TypeId(k as u32)
    }

    fn define(
        &mut self,
        desc: TypeDesc,
        fields: &Vec<(String, TypeDesc)>,
        overlay: bool,
    ) -> (r: TypeId)
        ensures
            final(self)@ == old(self)@.defined(desc@, fields_view(fields@), overlay),
            r == old(self)@.interned(desc@).id_of(desc@),
    {
        broadcast use fields_view_index;

        let copy = clone_desc(&desc);
        let id = self.intern(copy);
        let k = self.position(&desc);
        let ghost table = self@;
        if k >= self.types.len() || self.types[k].layout.fields.len() > 0 {
            return id;
        }
        let ghost start = LayoutV { table, fields: Seq::empty(), size: 0, align: 1 };
        let mut laid: Vec<FieldLayout> = Vec::new();
        let mut size: u64 = 0;
        let mut align: u64 = 1;
        let mut i: usize = 0;
        assert(layout_view(laid@) =~= Seq::<FieldV>::empty());
        while i < fields.len()
            invariant
                i <= fields@.len(),
                k < self.types@.len(),
                start == (LayoutV { table, fields: Seq::empty(), size: 0, align: 1 }),
                (LayoutV { table: self@, fields: layout_view(laid@), size, align })
                    == start.with_fields(fields_view(fields@), i as int, overlay),
            decreases fields@.len() - i,
        {
            proof {
                fields_view_index(fields@);
            }
            let (s, a) = self.extent(&fields[i].1);
            let ghost so_far = layout_view(laid@);
            let type_id = self.intern(clone_desc(&fields[i].1));
            let offset = if overlay {
                0
            } else {
                round_up(size, a)
            };
            let end = add_u64(offset, s);
            let f = FieldLayout { name: fields[i].0.clone(), type_id, offset };
            laid.push(f);
            assert(layout_view(laid@) =~= so_far.push(f@));
            if end > size {
                size = end;
            }
            if a > align {
                align = a;
            }
            i = i + 1;
        }
        let ghost before = self.types@;
        let info = TypeInfo {
            id: TypeId(k as u32),
            desc,
            size: round_up(size, align),
            align,
            layout: Layout { fields: laid },
        };
        self.types.set(k, info);
        assert(types_view(self.types@) =~= types_view(before).update(k as int, info@));
        id
    }

    /// Lays out a structure. The first definition of a name counts.
    pub fn compute_struct_layout(&mut self, name: String, fields: Vec<(String, TypeDesc)>) -> (r:
        TypeId)
        ensures
            final(self)@ == old(self)@.defined(
                DescV::Struct { name: name@, fields: fields_view(fields@) },
                fields_view(fields@),
                false,
            ),
            r == old(self)@.interned(
                DescV::Struct { name: name@, fields: fields_view(fields@) },
            ).id_of(DescV::Struct { name: name@, fields: fields_view(fields@) }),
    {
        let copy = clone_fields(&fields);
        self.define(TypeDesc::Struct { name, fields: copy }, &fields, false)
    }

    /// Lays out a union. The first definition of a name counts.
    pub fn compute_union_layout(&mut self, name: String, fields: Vec<(String, TypeDesc)>) -> (r:
        TypeId)
        ensures
            final(self)@ == old(self)@.defined(
                DescV::Union { name: name@, fields: fields_view(fields@) },
                fields_view(fields@),
                true,
            ),
            r == old(self)@.interned(
                DescV::Union { name: name@, fields: fields_view(fields@) },
            ).id_of(DescV::Union { name: name@, fields: fields_view(fields@) }),
    {
        let copy = clone_fields(&fields);
        self.define(TypeDesc::Union { name, fields: copy }, &fields, true)
    }

    /// The type with an identifier.
    pub fn get(&self, id: TypeId) -> (r: Option<&TypeInfo>)
        ensures
            match r {
                Some(t) => id.0 < self@.types.len() && t@ == self@.types[id.0 as int],
                None => id.0 >= self@.types.len(),
            },
    {
        let k = id.0 as usize;
        if k < self.types.len() {
            Some(&self.types[k])
        } else {
            None
        }
    }

    /// A field of a type.
    pub fn field(&self, id: TypeId, field: FieldId) -> (r: Option<&FieldLayout>)
        ensures
            match r {
                Some(f) => self@.field(id, field) == Some(f@),
                None => self@.field(id, field) is None,
            },
    {
        let k = id.0 as usize;
        if k < self.types.len() && (field.0 as usize) < self.types[k].layout.fields.len() {
            Some(&self.types[k].layout.fields[field.0 as usize])
        } else {
            None
        }
    }

    /// The identifier of a type that is in the table, that of the first
    /// type where it is not.
    pub fn resolve_type_id(&self, desc: &TypeDesc) -> (r: TypeId)
        ensures
            r == self@.resolved(desc@),
    {
        let k = self.position(desc);
        if k < self.types.len() {
            TypeId(k as u32)
        } else {
            TypeId(0)
        }
    }

    /// The structure or union with a tag.
    pub fn type_id_by_tag(&self, name: &str, kind: TypeKind) -> (r: Option<TypeId>)
        ensures
            r == self@.tagged(name@, kind),
    {
        if name.is_empty() {
            return None;
        }
        let fields: Vec<(String, TypeDesc)> = Vec::new();
        assert(fields_view(fields@) =~= Seq::empty());
        let d = match kind {
            TypeKind::Struct => TypeDesc::Struct { name: owned(name), fields },
            TypeKind::Union => TypeDesc::Union { name: owned(name), fields },
        };
        let k = self.position(&d);
        if k < self.types.len() {
            Some(TypeId(k as u32))
        } else {
            None
        }
    }

    /// The field of a type that has a name.
    pub fn field_id_by_name(&self, id: TypeId, name: &str) -> (r: Option<FieldId>)
        ensures
            match r {
                Some(f) => self@.field_position(id, name@, 0) is Some && f.0
                    == self@.field_position(id, name@, 0)->0 as u32,
                None => self@.field_position(id, name@, 0) is None,
            },
    {
        let k = id.0 as usize;
        if k >= self.types.len() {
            return None;
        }
        let fields = &self.types[k].layout.fields;
        assert(self@.types[id.0 as int].fields == layout_view(fields@));
        let mut i: usize = 0;
        while i < fields.len()
            invariant
                k == id.0,
                k < self.types@.len(),
                i <= fields@.len(),
                self@.types[id.0 as int].fields == layout_view(fields@),
                self@.field_position(id, name@, i as int) == self@.field_position(id, name@, 0),
            decreases fields@.len() - i,
        {
            if str_eq(fields[i].name.as_str(), name) {
                return Some(FieldId(i as u32));
            }
            i = i + 1;
        }
        None
    }

    /// What an alias stands for.
    pub fn resolve_alias(&self, name: &str) -> (r: Option<&TypeDesc>)
        ensures
            match r {
                Some(d) => self@.alias(name@, 0) == Some(d@),
                None => self@.alias(name@, 0) is None,
            },
    {
        let mut i: usize = 0;
        while i < self.aliases.len()
            invariant
                i <= self.aliases@.len(),
                self@.alias(name@, i as int) == self@.alias(name@, 0),
            decreases self.aliases@.len() - i,
        {
            assert(self@.aliases[i as int].0 == self.aliases@[i as int].0@);
            if str_eq(self.aliases[i].0.as_str(), name) {
                return Some(&self.aliases[i].1);
            }
            i = i + 1;
        }
        None
    }

    /// Adds an alias.
    pub fn register_alias(&mut self, name: &str, desc: TypeDesc)
        ensures
            final(self)@ == (TableV {
                aliases: old(self)@.aliases.push((name@, desc@)),
                ..old(self)@
            }),
    {
        let ghost before = self.aliases@;
        let ghost d = desc@;
        self.aliases.push((owned(name), desc));
        assert(aliases_view(self.aliases@) =~= aliases_view(before).push((name@, d)));
    }
}

proof fn position_of_pushed_type(types: Seq<TypeV>, t: TypeV, d: DescV, i: int)
    requires
        0 <= i <= types.len(),
        t.desc == d,
        position_of_type(types, d, i) == types.len(),
    ensures
        position_of_type(types.push(t), d, i) == types.len(),
    decreases types.len() - i,
{
    if i < types.len() {
        position_of_pushed_type(types, t, d, i + 1);
    }
}

} // verus!
