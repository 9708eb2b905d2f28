//! The types that a unit declares and uses.

use crate::index::lower::nodes::{
    declarator_is_pointer, declared, declared_shape, declares_function, is_fn_pointer,
    is_function_pointer_declarator, is_pointer_declarator, member_decl_is_function,
    parse_declarator_name, walk_declarator_shape,
};
use crate::index::lower::state::{Lower, LowerV};
use crate::index::names::{
    extract_tag_name, normal_name, normalize_qualified, strip_template_args, tag_behind,
    without_args,
};
use crate::index::syntax::{
    child_field, children_viewed, field_from_smaller, node_text, text_of, FieldName, NodeKind,
    NodeV, SyntaxNode,
};
use crate::ir::ids::TypeId;
use crate::ir::program::{with_edge, ProgramV};
use crate::ir::symbol::{count_up, next_number};
use crate::ir::types::{
    clone_desc, fields_view, fields_view_index, params_view, DescV, TableV, TypeDesc, TypeKind,
};
use crate::text::{
    cat2, contains_char, contains_text, contains_white, decimal, decimal_of, has_text, has_white,
    str_eq, trim, trimmed,
};
use vstd::prelude::*;

verus! {

broadcast use children_viewed;

/// The tag of a structure, a union or a class as its declaration spells it;
/// empty where it has none.
pub open spec fn spelled_tag(src: Seq<char>, n: NodeV) -> Seq<char> {
    match child_field(n, FieldName::Name) {
        Some(m) => {
            let raw = text_of(src, m);
            if m.kind == NodeKind::TemplateType || raw.contains('<') {
                without_args(normal_name(raw))
            } else if has_text(raw, "::"@) || has_white(raw) {
                normal_name(raw)
            } else {
                raw
            }
        },
        None => Seq::empty(),
    }
}

pub fn spelled_tag_of(src: &Vec<char>, n: &SyntaxNode) -> (r: String)
    ensures
        r@ == spelled_tag(src@, n@),
{
    match n.child_by_field(FieldName::Name) {
        Some(m) => {
            let raw = node_text(src, m);
            if m.kind == NodeKind::TemplateType || contains_char(raw.as_str(), '<') {
                let plain = normalize_qualified(raw.as_str());
                strip_template_args(plain.as_str())
            } else if contains_text(raw.as_str(), "::") || contains_white(raw.as_str()) {
                normalize_qualified(raw.as_str())
            } else {
                raw
            }
        },
        None => {
            let r = String::new();
            assert(r@ =~= Seq::empty());
            r
        },
    }
}

/// Whether a node can name a base class.
pub open spec fn names_base(n: NodeV) -> bool {
    ||| n.kind == NodeKind::QualifiedIdentifier
    ||| n.named && (n.kind == NodeKind::TypeIdentifier || n.kind == NodeKind::TemplateType || n.kind
        == NodeKind::NamespaceIdentifier)
}

/// The type that a text spells: a structure, a union, a simple type, or what
/// an alias stands for.
pub open spec fn spelled_type(types: TableV, text: Seq<char>) -> DescV {
    if has_text(text, "union"@) {
        DescV::Union { name: tag_behind(text, "union"@), fields: Seq::empty() }
    } else if has_text(text, "struct"@) {
        DescV::Struct { name: tag_behind(text, "struct"@), fields: Seq::empty() }
    } else if has_text(text, "char"@) {
        DescV::Char
    } else if has_text(text, "void"@) {
        DescV::Void
    } else {
        let alias = trimmed(text);
        if !has_white(alias) && alias.len() > 0 && types.alias(alias, 0) is Some {
            types.alias(alias, 0)->0
        } else {
            DescV::Int
        }
    }
}

/// Whether a node names a type by an identifier.
pub open spec fn names_type(n: NodeV) -> bool {
    ||| n.kind == NodeKind::QualifiedIdentifier
    ||| n.kind == NodeKind::TypeIdentifier
    ||| n.kind == NodeKind::TemplateType
    ||| n.kind == NodeKind::PlaceholderTypeSpecifier
}

impl LowerV {
    /// With the classes that the first `k` parts of a clause name as bases.
    pub open spec fn with_clause(self, clause: NodeV, derived: Seq<char>, k: int) -> LowerV
        decreases k,
    {
        if k <= 0 {
            self
        } else {
            let s = self.with_clause(clause, derived, k - 1);
            let base = clause.children[k - 1];
            if names_base(base) {
                s.with_program(
                    ProgramV {
                        inheritance: with_edge(
                            s.p.inheritance,
                            derived,
                            self.class_name(text_of(self.src, base)),
                        ),
                        ..s.p
                    },
                )
            } else {
                s
            }
        }
    }

    /// With the bases that the first `k` parts of a class name.
    pub open spec fn with_bases(self, n: NodeV, derived: Seq<char>, k: int) -> LowerV
        decreases k,
    {
        if k <= 0 {
            self
        } else {
            let s = self.with_bases(n, derived, k - 1);
            let c = n.children[k - 1];
            if c.kind == NodeKind::BaseClassClause {
                s.with_clause(c, derived, c.children.len() as int)
            } else {
                s
            }
        }
    }

    /// What a structure, a union or a class goes by, once it has a name: one
    /// without a tag is numbered.
    pub open spec fn tag_state(self, n: NodeV) -> (LowerV, Seq<char>) {
        let spelled = spelled_tag(self.src, n);
        let number = next_number(self.p.anon_type_counter);
        let (s, name) = if spelled.len() == 0 {
            (
                self.with_program(ProgramV { anon_type_counter: number, ..self.p }),
                "anon_"@ + decimal_of(number as nat),
            )
        } else {
            (self, spelled)
        };
        if n.kind == NodeKind::ClassSpecifier && !has_text(name, "::"@) {
            (s, self.qualified(name))
        } else {
            (s, name)
        }
    }

    /// After the declaration of a structure, a union or a class, and the tag
    /// that it goes by.
    pub open spec fn after_struct(self, n: NodeV) -> (LowerV, Seq<char>)
        decreases n, 1int, 0int,
    {
        let (s0, tag) = self.tag_state(n);
        let s1 = if n.kind == NodeKind::ClassSpecifier {
            s0.with_bases(n, tag, n.children.len() as int)
        } else {
            s0
        };
        let (s2, fields) = match child_field(n, FieldName::Body) {
            Some(body) => {
                proof {
                    field_from_smaller(n, FieldName::Body, 0);
                }
                s1.after_fields(body, body.children.len() as int)
            },
            None => (s1, Seq::empty()),
        };
        if fields.len() > 0 || n.kind == NodeKind::ClassSpecifier || self.is_cpp {
            if n.kind == NodeKind::UnionSpecifier {
                (
                    s2.with_types(
                        s2.p.types.defined(DescV::Union { name: tag, fields }, fields, true),
                    ),
                    tag,
                )
            } else {
                (
                    s2.with_types(
                        s2.p.types.defined(DescV::Struct { name: tag, fields }, fields, false),
                    ),
                    tag,
                )
            }
        } else {
            (s2, tag)
        }
    }

    /// After the first `k` parts of a body, and the fields that they declare.
    pub open spec fn after_fields(self, body: NodeV, k: int) -> (
        LowerV,
        Seq<(Seq<char>, DescV)>,
    )
        decreases body, 0int, k,
    {
        if k <= 0 || k > body.children.len() {
            (self, Seq::empty())
        } else {
            let (s, fields) = self.after_fields(body, k - 1);
            let c = body.children[k - 1];
            if c.kind == NodeKind::FieldDeclaration && !declares_function(c) {
                let (t, field) = s.after_field(c);
                match field {
                    Some(f) => (t, fields.push(f)),
                    None => (t, fields),
                }
            } else {
                (s, fields)
            }
        }
    }

    /// After the declaration of a field, and its name and type.
    pub open spec fn after_field(self, n: NodeV) -> (LowerV, Option<(Seq<char>, DescV)>)
        decreases n, 0int, 0int,
    {
        match child_field(n, FieldName::Declarator) {
            Some(decl) => {
                let name = declared(self.src, decl).0;
                if name.len() == 0 {
                    (self, None)
                } else {
                    let (s, base) = match child_field(n, FieldName::Type) {
                        Some(t) => {
                            proof {
                                field_from_smaller(n, FieldName::Type, 0);
                            }
                            self.after_type(t)
                        },
                        None => (self, DescV::Int),
                    };
                    let d = if is_fn_pointer(decl) {
                        DescV::FnPtr { ret: Box::new(base), params: Seq::empty() }
                    } else if is_pointer_declarator(decl) {
                        DescV::Ptr(Box::new(base))
                    } else {
                        base
                    };
                    (s, Some((name, d)))
                }
            },
            None => (self, None),
        }
    }

    /// After a type, and what it is.
    pub open spec fn after_type(self, n: NodeV) -> (LowerV, DescV)
        decreases n, 2int, 0int,
    {
        if n.kind == NodeKind::UnionSpecifier {
            let (s, name) = self.after_struct(n);
            (s, DescV::Union { name, fields: Seq::empty() })
        } else if n.kind == NodeKind::StructSpecifier || n.kind == NodeKind::ClassSpecifier {
            let (s, name) = self.after_struct(n);
            (s, DescV::Struct { name, fields: Seq::empty() })
        } else {
            (self, self.type_named(n))
        }
    }

    /// The type that a node names.
    pub open spec fn type_named(self, n: NodeV) -> DescV {
        let text = text_of(self.src, n);
        let raw = normal_name(text);
        let bare = without_args(raw);
        if n.kind == NodeKind::PlaceholderTypeSpecifier {
            DescV::Unknown
        } else if names_type(n) && (has_text(bare, "::"@) || bare != raw || self.tagged(
            self.qualified(bare),
        ) is Some) {
            DescV::Struct {
                name: if has_text(bare, "::"@) {
                    bare
                } else {
                    self.qualified(bare)
                },
                fields: Seq::empty(),
            }
        } else {
            spelled_type(self.p.types, text)
        }
    }

    /// After a type, and its identifier.
    pub open spec fn after_type_node(self, n: NodeV) -> (LowerV, TypeId) {
        let (s, d) = self.after_type(n);
        let types = s.p.types.interned(d);
        (s.with_types(types), types.id_of(d))
    }

    /// After a `typedef`.
    pub open spec fn after_typedef(self, n: NodeV) -> LowerV {
        match (child_field(n, FieldName::Declarator), child_field(n, FieldName::Type)) {
            (Some(decl), Some(t)) => {
                let alias = declared(self.src, decl).0;
                if t.kind == NodeKind::StructSpecifier || t.kind == NodeKind::UnionSpecifier {
                    let (s, tag) = self.after_struct(t);
                    if alias.len() > 0 && tag.len() > 0 && alias != tag {
                        s.with_types(
                            s.p.types.interned(
                                if t.kind == NodeKind::UnionSpecifier {
                                    DescV::Union { name: tag, fields: Seq::empty() }
                                } else {
                                    DescV::Struct { name: tag, fields: Seq::empty() }
                                },
                            ),
                        )
                    } else {
                        s
                    }
                } else {
                    let (s, base) = self.after_type(t);
                    s.with_types(
                        TableV {
                            aliases: s.p.types.aliases.push((alias, declared_shape(decl, base))),
                            ..s.p.types
                        },
                    )
                }
            },
            _ => self,
        }
    }
}

/// A structure that is named but not spelled out.
pub fn bare_struct(name: String) -> (r: TypeDesc)
    ensures
        r@ == (DescV::Struct { name: name@, fields: Seq::empty() }),
{
    let fields: Vec<(String, TypeDesc)> = Vec::new();
    assert(fields_view(fields@) =~= Seq::empty());
    TypeDesc::Struct { name, fields }
}

/// A union that is named but not spelled out.
pub fn bare_union(name: String) -> (r: TypeDesc)
    ensures
        r@ == (DescV::Union { name: name@, fields: Seq::empty() }),
{
    let fields: Vec<(String, TypeDesc)> = Vec::new();
    assert(fields_view(fields@) =~= Seq::empty());
    TypeDesc::Union { name, fields }
}

impl Lower {
    fn lower_bases(&mut self, n: &SyntaxNode, derived: &str)
        requires
            old(self).wf(),
        ensures
            final(self).wf(),
            final(self)@ == old(self)@.with_bases(n@, derived@, n@.children.len() as int),
    {
        let ghost start = self@;
        let mut i: usize = 0;
        while i < n.children.len()
            invariant
                i <= n@.children.len(),
                self.wf(),
                self@ == start.with_bases(n@, derived@, i as int),
            decreases n@.children.len() - i,
        {
            let c = &n.children[i];
            if c.kind == NodeKind::BaseClassClause {
                self.lower_clause(c, derived);
            }
            i = i + 1;
        }
    }

    fn lower_clause(&mut self, clause: &SyntaxNode, derived: &str)
        requires
            old(self).wf(),
        ensures
            final(self).wf(),
            final(self)@ == old(self)@.with_clause(
                clause@,
                derived@,
                clause@.children.len() as int,
            ),
    {
        let ghost start = self@;
        let mut i: usize = 0;
        while i < clause.children.len()
            invariant
                i <= clause@.children.len(),
                self.wf(),
                self@ == start.with_clause(clause@, derived@, i as int),
                self@.src == start.src,
                self@.ns == start.ns,
            decreases clause@.children.len() - i,
        {
            let base = &clause.children[i];
            let is_base = match base.kind {
                NodeKind::QualifiedIdentifier => true,
                NodeKind::TypeIdentifier | NodeKind::TemplateType
                | NodeKind::NamespaceIdentifier => base.named,
                _ => false,
            };
            if is_base {
                let text = node_text(&self.source, base);
                let name = self.name_of_class(text.as_str());
                self.program.add_inheritance(derived, name.as_str());
            }
            i = i + 1;
        }
    }

    fn name_struct(&mut self, n: &SyntaxNode) -> (r: String)
        requires
            old(self).wf(),
        ensures
            final(self).wf(),
            (final(self)@, r@) == old(self)@.tag_state(n@),
    {
        let spelled = spelled_tag_of(&self.source, n);
        let name = if spelled.as_str().is_empty() {
            let number = count_up(self.program.anon_type_counter);
            self.program.anon_type_counter = number;
            let digits = decimal(number as u64);
            cat2("anon_", digits.as_str())
        } else {
            spelled
        };
        if n.kind == NodeKind::ClassSpecifier && !contains_text(name.as_str(), "::") {
            self.qualify(name.as_str())
        } else {
            name
        }
    }

    /// Lowers the declaration of a structure, a union or a class. The result
    /// is the tag that it goes by.
    pub fn lower_struct_specifier(&mut self, n: &SyntaxNode) -> (r: String)
        requires
            old(self).wf(),
        ensures
            final(self).wf(),
            (final(self)@, r@) == old(self)@.after_struct(n@),
        decreases n@, 1int,
    {
        let cpp = self.is_cpp;
        let tag = self.name_struct(n);
        if n.kind == NodeKind::ClassSpecifier {
            self.lower_bases(n, tag.as_str());
        }
        let fields = match n.child_by_field(FieldName::Body) {
            Some(body) => self.lower_fields(body),
            None => {
                let none: Vec<(String, TypeDesc)> = Vec::new();
                assert(fields_view(none@) =~= Seq::empty());
                none
            },
        };
        proof {
            fields_view_index(fields@);
        }
        if fields.len() > 0 || n.kind == NodeKind::ClassSpecifier || cpp {
            if n.kind == NodeKind::UnionSpecifier {
                self.program.types.compute_union_layout(tag.clone(), fields);
            } else {
                self.program.types.compute_struct_layout(tag.clone(), fields);
            }
        }
        tag
    }

    fn lower_fields(&mut self, body: &SyntaxNode) -> (r: Vec<(String, TypeDesc)>)
        requires
            old(self).wf(),
        ensures
            final(self).wf(),
            (final(self)@, fields_view(r@)) == old(self)@.after_fields(
                body@,
                body@.children.len() as int,
            ),
        decreases body@, 0int,
    {
        let ghost start = self@;
        let mut fields: Vec<(String, TypeDesc)> = Vec::new();
        let mut i: usize = 0;
        assert(fields_view(fields@) =~= Seq::empty());
        while i < body.children.len()
            invariant
                i <= body@.children.len(),
                self.wf(),
                (self@, fields_view(fields@)) == start.after_fields(body@, i as int),
            decreases body@.children.len() - i,
        {
            let c = &body.children[i];
            if c.kind == NodeKind::FieldDeclaration && !member_decl_is_function(c) {
                if let Some(f) = self.type_desc_from_field_declaration(c) {
                    let ghost before = fields@;
                    fields.push(f);
                    assert(fields@.drop_last() =~= before);
                }
            }
            i = i + 1;
        }
        fields
    }

    fn type_desc_from_field_declaration(&mut self, n: &SyntaxNode) -> (r: Option<
        (String, TypeDesc),
    >)
        requires
            old(self).wf(),
        ensures
            final(self).wf(),
            final(self)@ == old(self)@.after_field(n@).0,
            match r {
                Some(f) => old(self)@.after_field(n@).1 == Some((f.0@, f.1@)),
                None => old(self)@.after_field(n@).1 is None,
            },
        decreases n@, 0int,
    {
        let decl = match n.child_by_field(FieldName::Declarator) {
            Some(d) => d,
            None => {
                return None;
            },
        };
        let (name, _pointer) = parse_declarator_name(&self.source, decl);
        if name.as_str().is_empty() {
            return None;
        }
        let base = match n.child_by_field(FieldName::Type) {
            Some(t) => self.type_desc_from_node(t),
            None => TypeDesc::Int,
        };
        let d = if is_function_pointer_declarator(decl) {
            let params: Vec<TypeDesc> = Vec::new();
            assert(params_view(params@) =~= Seq::empty());
            TypeDesc::FnPtr { ret: Box::new(base), params }
        } else if declarator_is_pointer(decl) {
            TypeDesc::Ptr(Box::new(base))
        } else {
            base
        };
        Some((name, d))
    }

    /// The type that a node names or declares.
    pub fn type_desc_from_node(&mut self, n: &SyntaxNode) -> (r: TypeDesc)
        requires
            old(self).wf(),
        ensures
            final(self).wf(),
            (final(self)@, r@) == old(self)@.after_type(n@),
        decreases n@, 2int,
    {
        match n.kind {
            NodeKind::UnionSpecifier => {
                let name = self.lower_struct_specifier(n);
                bare_union(name)
            },
            NodeKind::StructSpecifier | NodeKind::ClassSpecifier => {
                let name = self.lower_struct_specifier(n);
                bare_struct(name)
            },
            _ => self.find_type(n),
        }
    }

    fn find_type(&self, n: &SyntaxNode) -> (r: TypeDesc)
        ensures
            r@ == self@.type_named(n@),
    {
        let text = node_text(&self.source, n);
        if n.kind == NodeKind::PlaceholderTypeSpecifier {
            return TypeDesc::Unknown;
        }
        if n.kind == NodeKind::QualifiedIdentifier || n.kind == NodeKind::TypeIdentifier || n.kind
            == NodeKind::TemplateType {
            let raw = normalize_qualified(text.as_str());
            let bare = strip_template_args(raw.as_str());
            if contains_text(bare.as_str(), "::") {
                return bare_struct(bare);
            }
            let full = self.qualify(bare.as_str());
            if !str_eq(bare.as_str(), raw.as_str()) || self.program.types.type_id_by_tag(
                full.as_str(),
                TypeKind::Struct,
            ).is_some() {
                return bare_struct(full);
            }
        }
        self.spelled_desc(text.as_str())
    }

    fn spelled_desc(&self, text: &str) -> (r: TypeDesc)
        ensures
            r@ == spelled_type(self@.p.types, text@),
    {
        if contains_text(text, "union") {
            bare_union(extract_tag_name(text, "union"))
        } else if contains_text(text, "struct") {
            bare_struct(extract_tag_name(text, "struct"))
        } else if contains_text(text, "char") {
            TypeDesc::Char
        } else if contains_text(text, "void") {
            TypeDesc::Void
        } else {
            let alias = trim(text);
            if !contains_white(alias.as_str()) && !alias.as_str().is_empty() {
                if let Some(d) = self.program.types.resolve_alias(alias.as_str()) {
                    return clone_desc(d);
                }
            }
            TypeDesc::Int
        }
    }

    /// The identifier of the type that a node names or declares.
    pub fn parse_type_node(&mut self, n: &SyntaxNode) -> (r: TypeId)
        requires
            old(self).wf(),
        ensures
            final(self).wf(),
            (final(self)@, r) == old(self)@.after_type_node(n@),
    {
        let d = self.type_desc_from_node(n);
        self.intern(d)
    }

    /// Lowers a `typedef`.
    pub fn lower_typedef(&mut self, n: &SyntaxNode)
        requires
            old(self).wf(),
        ensures
            final(self).wf(),
            final(self)@ == old(self)@.after_typedef(n@),
    {
        let decl = match n.child_by_field(FieldName::Declarator) {
            Some(d) => d,
            None => {
                return ;
            },
        };
        let t = match n.child_by_field(FieldName::Type) {
            Some(t) => t,
            None => {
                return ;
            },
        };
        let (alias, _pointer) = parse_declarator_name(&self.source, decl);
        if t.kind == NodeKind::StructSpecifier || t.kind == NodeKind::UnionSpecifier {
            let tag = self.lower_struct_specifier(t);
            if !alias.as_str().is_empty() && !tag.as_str().is_empty() && !str_eq(
                alias.as_str(),
                tag.as_str(),
            ) {
                let d = if t.kind == NodeKind::UnionSpecifier {
                    bare_union(tag)
                } else {
                    bare_struct(tag)
                };
                self.intern(d);
            }
        } else {
            let base = self.type_desc_from_node(t);
            let d = walk_declarator_shape(decl, base);
            self.program.types.register_alias(alias.as_str(), d);
        }
    }
}

} // verus!
