//! Declarations: of variables, of functions, and of what is in their bodies.

use crate::collections::{fx_name_insert, fx_name_map, fx_names};
use crate::index::lower::calls::{no_args, CallArgs};
use crate::index::lower::nodes::{
    declaration_is_static, declarator_is_array, declared, declares_function,
    find_function_declarator, find_params, fn_behind_pointers, fn_decl_under_pointer,
    function_declarator, init_pair_value_node, is_array_declarator, is_designated, is_fn_pointer,
    is_function_pointer_declarator, is_virtual, list_has_field_designators, member_decl_is_function,
    member_short_name, names_field_from, pair_value, pair_value_smaller, parameters,
    parse_declarator_name, short_name, static_from,
};
use crate::index::lower::state::{clone_opt, ns_named, opt_view, opts_view, Lower, LowerV};
use crate::index::lower::types::bare_struct;
use crate::index::names::{
    as_ints, cuts, find_cuts, first_part, first_segment, normal_name, normalize_qualified,
};
use crate::index::syntax::{
    child_field, child_kind, children_viewed, node_text, text_of, FieldName, NodeKind, NodeV,
    SyntaxNode,
};
use crate::ir::flow::{FlowConstraint, FlowV};
use crate::ir::ids::{FnId, TypeId, VarId};
use crate::ir::program::{MethodKind, MethodV};
use crate::ir::symbol::{clone_var_ids, next_number, FnV, Function, Linkage, StorageClass, SymbolsV};
use crate::ir::types::{clone_desc, DescV, TypeDesc, TypeKind};
use crate::text::{
    add_name, begins, begins_with, cat3, chars_of, contains_text, has_text, owned, str_eq,
    string_of, with_name,
};
use vstd::prelude::*;

verus! {

broadcast use children_viewed;

/// The last named child among the first `k`.
pub open spec fn last_named(n: NodeV, k: int) -> Option<NodeV>
    decreases k,
{
    if k <= 0 || k > n.children.len() {
        None
    } else if n.children[k - 1].named {
        Some(n.children[k - 1])
    } else {
        last_named(n, k - 1)
    }
}

fn find_last_named(n: &SyntaxNode) -> (r: Option<&SyntaxNode>)
    ensures
        match r {
            Some(c) => last_named(n@, n@.children.len() as int) == Some(c@),
            None => last_named(n@, n@.children.len() as int) is None,
        },
{
    let mut k: usize = n.children.len();
    while k > 0
        invariant
            k <= n@.children.len(),
            last_named(n@, k as int) == last_named(n@, n@.children.len() as int),
        decreases k,
    {
        if n.children[k - 1].named {
            return Some(&n.children[k - 1]);
        }
        k = k - 1;
    }
    None
}

/// The arguments that a declarator hands to a constructor.
pub open spec fn constructor_args(at: NodeV, init: Option<NodeV>) -> Option<NodeV> {
    match init {
        Some(v) => if v.kind == NodeKind::ArgumentList {
            Some(v)
        } else {
            child_kind(at, NodeKind::ArgumentList)
        },
        None => child_kind(at, NodeKind::ArgumentList),
    }
}

impl LowerV {
    /// The identifier of the next function.
    pub open spec fn next_fn(self) -> FnId {
        FnId(self.p.symbols.next_fn)
    }

    /// With that identifier given away.
    pub open spec fn with_fn_id(self) -> LowerV {
        self.with_symbols(
            SymbolsV { next_fn: next_number(self.p.symbols.next_fn), ..self.p.symbols },
        )
    }

    /// With a function, and the identifier that it goes by.
    pub open spec fn with_fn(self, f: FnV) -> (LowerV, FnId) {
        let (symbols, id) = self.p.symbols.with_function(f);
        (self.with_symbols(symbols), id)
    }

    /// With a function that stands for the one that its parameters were given
    /// to, and the identifier that it goes by.
    pub open spec fn with_owner(self, f: FnV) -> (LowerV, FnId) {
        let (s, id) = self.with_fn(f);
        (s.with_symbols(s.p.symbols.reassigned(f.id, id)), id)
    }

    /// After the declaration of a parameter, and the variable that it is.
    pub open spec fn after_param(self, n: NodeV, f: FnId, index: u32) -> (
        LowerV,
        Option<VarId>,
    ) {
        match child_field(n, FieldName::Declarator) {
            Some(decl) => {
                let (name, is_pointer) = declared(self.src, decl);
                if name.len() == 0 {
                    (self, None)
                } else {
                    let (s0, base) = match child_field(n, FieldName::Type) {
                        Some(t) => self.after_type(t),
                        None => (self, DescV::Int),
                    };
                    let d = if is_pointer {
                        DescV::Ptr(Box::new(base))
                    } else {
                        base
                    };
                    let types = s0.p.types.interned(d);
                    let (s, span) = s0.with_types(types).placed(n);
                    (
                        s.with_var(
                            name,
                            types.id_of(d),
                            StorageClass::Param,
                            Some(f),
                            Some(index),
                            span,
                            is_pointer,
                        ).with_local(name, s.next_var()),
                        Some(s.next_var()),
                    )
                }
            },
            None => (self, None),
        }
    }

    /// After the first `k` parts of a list of parameters, and the variables
    /// that they are, behind `params`.
    pub open spec fn after_params(self, n: NodeV, f: FnId, params: Seq<VarId>, k: int) -> (
        LowerV,
        Seq<VarId>,
    )
        decreases k,
    {
        if k <= 0 {
            (self, params)
        } else {
            let (s, got) = self.after_params(n, f, params, k - 1);
            let c = n.children[k - 1];
            if c.kind == NodeKind::ParameterDeclaration {
                match s.after_param(c, f, got.len() as u32) {
                    (t, Some(v)) => (t, got.push(v)),
                    (t, None) => (t, got),
                }
            } else {
                (s, got)
            }
        }
    }

    /// After the parameters of a declarator, and the variables that they are,
    /// behind `params`.
    pub open spec fn after_all_params(self, decl: NodeV, f: FnId, params: Seq<VarId>) -> (
        LowerV,
        Seq<VarId>,
    ) {
        match parameters(decl) {
            Some(list) => self.after_params(list, f, params, list.children.len() as int),
            None => (self, params),
        }
    }

    /// After the declaration of a function.
    pub open spec fn after_fn_decl(
        self,
        decl: NodeV,
        return_type: TypeId,
        is_static: bool,
    ) -> LowerV {
        let name = declared(self.src, decl).0;
        if name.len() == 0 {
            self
        } else {
            let id = self.next_fn();
            let (s, params) = self.with_fn_id().after_all_params(decl, id, Seq::empty());
            let (t, span) = s.placed(decl);
            t.with_owner(
                FnV {
                    id,
                    name,
                    linkage: if is_static {
                        Linkage::Internal
                    } else {
                        Linkage::External
                    },
                    return_type,
                    params,
                    locals: Seq::empty(),
                    span,
                    file: self.file,
                    is_defined: false,
                    is_virtual: false,
                    is_cpp: self.is_cpp,
                },
            ).0
        }
    }

    /// With a function among the initializers of an array.
    pub open spec fn with_array_member(self, array: VarId, n: NodeV) -> LowerV {
        match self.fn_argument(n) {
            Some(callee) => self.with_flow(FlowV::ArrayFnMember { array, callee }),
            None => self,
        }
    }

    /// With the functions among the initializers of an array.
    pub open spec fn with_array_members(self, array: VarId, n: NodeV) -> LowerV
        decreases n, 1int, 0int,
    {
        self.with_array_parts(array, n, n.children.len() as int)
    }

    pub open spec fn with_array_parts(self, array: VarId, n: NodeV, k: int) -> LowerV
        decreases n, 0int, k,
    {
        if k <= 0 || k > n.children.len() {
            self
        } else {
            let s = self.with_array_parts(array, n, k - 1);
            let c = n.children[k - 1];
            if c.kind == NodeKind::OpenParen || c.kind == NodeKind::CloseParen || c.kind
                == NodeKind::Comma {
                s
            } else if c.kind == NodeKind::InitializerList {
                s.with_array_members(array, c)
            } else if is_designated(c) {
                match pair_value(c, c.children.len() as int) {
                    Some(value) => {
                        proof {
                            pair_value_smaller(c, c.children.len() as int);
                        }
                        if value.kind == NodeKind::InitializerList {
                            if names_field_from(value, 0) {
                                s
                            } else {
                                s.with_array_members(array, value)
                            }
                        } else {
                            s.with_array_member(array, value)
                        }
                    },
                    None => s,
                }
            } else {
                s.with_array_member(array, c)
            }
        }
    }

    /// Whether a type is an array.
    pub open spec fn is_array(self, t: TypeId) -> bool {
        match self.p.types.desc(t) {
            Some(DescV::Array { elem, size }) => true,
            _ => false,
        }
    }

    /// After the value that a variable starts with.
    pub open spec fn after_initial(self, v: VarId, t: TypeId, decl: NodeV, init: NodeV)
        -> LowerV {
        let s = if init.kind == NodeKind::InitializerList && (self.is_array(t)
            || is_array_declarator(decl)) {
            self.with_array_members(v, init)
        } else {
            self
        };
        s.after_expr(init, Some(v))
    }

    /// With a variable that is declared here, under its name.
    pub open spec fn with_declared(
        self,
        name: Seq<char>,
        t: TypeId,
        is_static: bool,
        at: NodeV,
        is_pointer: bool,
    ) -> LowerV {
        let (s, span) = self.placed(at);
        s.with_var(
            name,
            t,
            self.storage(is_static),
            self.current_fn,
            None,
            span,
            is_pointer,
        ).with_local(name, s.next_var())
    }

    /// The class whose constructor a declaration with arguments calls.
    pub open spec fn constructed(self, t: TypeId) -> Option<Seq<char>> {
        match self.p.types.desc(t) {
            Some(DescV::Struct { name, fields }) => if name.len() > 0 && !begins(name, "anon_"@) {
                Some(name)
            } else {
                None
            },
            _ => None,
        }
    }

    /// After the call of a constructor that a declaration makes.
    pub open spec fn after_construction(
        self,
        at: NodeV,
        t: TypeId,
        init: Option<NodeV>,
    ) -> LowerV {
        match (self.current_fn, constructor_args(at, init), self.constructed(t)) {
            (Some(f), Some(list), Some(cls)) => if self.is_cpp && at.kind
                == NodeKind::InitDeclarator {
                let (s, span) = self.placed(at);
                let (u, args) = s.after_all_args(Some(list));
                u.with_member_call(f, cls, MethodV::Ctor, args, span)
            } else {
                self
            },
            _ => self,
        }
    }

    /// After one declarator.
    pub open spec fn after_declarator(
        self,
        at: NodeV,
        decl: NodeV,
        t: TypeId,
        is_static: bool,
        init: Option<NodeV>,
    ) -> LowerV {
        let (name, is_pointer) = declared(self.src, decl);
        let v = self.next_var();
        if is_fn_pointer(decl) {
            if name.len() == 0 {
                self
            } else {
                let s = self.with_declared(name, t, is_static, at, true);
                match init {
                    Some(e) => s.after_initial(v, t, decl, e),
                    None => s,
                }
            }
        } else if decl.kind == NodeKind::FunctionDeclarator {
            self.after_fn_decl(decl, t, is_static)
        } else if name.len() == 0 {
            self
        } else {
            let s = self.with_declared(name, t, is_static, at, is_pointer).after_construction(
                at,
                t,
                init,
            );
            match init {
                Some(e) => if e.kind == NodeKind::ArgumentList {
                    s
                } else {
                    s.after_initial(v, t, decl, e)
                },
                None => s,
            }
        }
    }

    /// A pointer to a type, `k` times over.
    pub open spec fn pointer_to(self, t: TypeId, k: u32) -> (LowerV, TypeId)
        decreases k,
    {
        if k == 0 {
            (self, t)
        } else {
            let (s, u) = self.pointer_to(t, (k - 1) as u32);
            match s.p.types.desc(u) {
                Some(d) => {
                    let types = s.p.types.interned(DescV::Ptr(Box::new(d)));
                    (s.with_types(types), types.id_of(DescV::Ptr(Box::new(d))))
                },
                None => (s, u),
            }
        }
    }

    /// The type of a variable that is declared with `auto`: a pointer to the
    /// class of a `new` expression.
    pub open spec fn deduced(self, type_node: NodeV, t: TypeId, init: Option<NodeV>) -> (
        LowerV,
        TypeId,
    ) {
        match init {
            Some(e) => if type_node.kind == NodeKind::PlaceholderTypeSpecifier && e.kind
                == NodeKind::NewExpression {
                match self.new_class(e) {
                    Some(cls) => {
                        let d = DescV::Struct { name: cls, fields: Seq::empty() };
                        let types = self.p.types.interned(d);
                        self.with_types(types).pointer_to(types.id_of(d), 1)
                    },
                    None => (self, t),
                }
            } else {
                (self, t)
            },
            None => (self, t),
        }
    }

    /// After one part of a declaration.
    pub open spec fn after_declared(
        self,
        type_node: NodeV,
        c: NodeV,
        t: TypeId,
        is_static: bool,
    ) -> LowerV {
        if c.kind == NodeKind::InitDeclarator {
            let decl = match child_field(c, FieldName::Declarator) {
                Some(d) => d,
                None => c,
            };
            let init = child_field(c, FieldName::Value);
            let (s, u) = self.deduced(type_node, t, init);
            s.after_declarator(c, decl, u, is_static, init)
        } else if c.kind == NodeKind::Declarator || c.kind == NodeKind::PointerDeclarator || c.kind
            == NodeKind::FunctionDeclarator || c.kind == NodeKind::ArrayDeclarator {
            match fn_behind_pointers(c, 0) {
                Some((decl, depth)) => {
                    let (s, u) = self.pointer_to(t, depth);
                    s.after_fn_decl(decl, u, is_static)
                },
                None => self.after_declarator(c, c, t, is_static, None),
            }
        } else if c.kind == NodeKind::Identifier {
            let name = text_of(self.src, c);
            if name.len() == 0 {
                self
            } else {
                self.with_declared(name, t, is_static, c, false)
            }
        } else {
            self
        }
    }

    /// After the first `k` parts of a declaration.
    pub open spec fn after_declarators(
        self,
        n: NodeV,
        type_node: NodeV,
        t: TypeId,
        k: int,
    ) -> LowerV
        decreases k,
    {
        if k <= 0 {
            self
        } else {
            self.after_declarators(n, type_node, t, k - 1).after_declared(
                type_node,
                n.children[k - 1],
                t,
                static_from(n, 0),
            )
        }
    }

    /// After a declaration.
    pub open spec fn after_declaration(self, n: NodeV) -> LowerV {
        match child_field(n, FieldName::Type) {
            Some(type_node) => {
                let (s, t) = self.after_type_node(type_node);
                s.after_declarators(n, type_node, t, n.children.len() as int)
            },
            None => self,
        }
    }

    /// After what a node of a body is, without its parts.
    pub open spec fn after_node(self, n: NodeV, caller: FnId) -> LowerV {
        if n.kind == NodeKind::Declaration {
            self.after_declaration(n)
        } else if n.kind == NodeKind::AssignmentExpression {
            self.after_expr(n, None)
        } else if n.kind == NodeKind::CallExpression {
            self.after_call(n, caller)
        } else if n.kind == NodeKind::ReturnStatement {
            self.after_return(n, caller)
        } else if n.kind == NodeKind::NewExpression && self.is_cpp {
            match self.new_class(n) {
                Some(cls) => {
                    let (s, span) = self.placed(n);
                    let (t, args) = s.after_all_args(child_kind(n, NodeKind::ArgumentList));
                    t.with_member_call(caller, cls, MethodV::Ctor, args, span)
                },
                None => self,
            }
        } else if n.kind == NodeKind::DeleteExpression && self.is_cpp {
            match last_named(n, n.children.len() as int) {
                Some(operand) => match self.static_class(operand) {
                    Some(cls) => {
                        let (s, span) = self.placed(n);
                        s.with_member_call(caller, cls, MethodV::Dtor, no_args(), span)
                    },
                    None => self,
                },
                None => self,
            }
        } else if n.kind == NodeKind::FieldInitializerList && self.is_cpp {
            self.after_initializer_list(n, caller)
        } else {
            self
        }
    }

    /// After a part of a body.
    pub open spec fn after_body(self, n: NodeV, caller: FnId) -> LowerV
        decreases n, 1int, 0int,
    {
        self.after_node(n, caller).after_bodies(n, caller, n.children.len() as int)
    }

    /// After the first `k` children of a part of a body.
    pub open spec fn after_bodies(self, n: NodeV, caller: FnId, k: int) -> LowerV
        decreases n, 0int, k,
    {
        if k <= 0 || k > n.children.len() {
            self
        } else {
            self.after_bodies(n, caller, k - 1).after_body(n.children[k - 1], caller)
        }
    }

    /// The full name of a function that is defined here.
    pub open spec fn full_name(self, raw: Seq<char>) -> Seq<char> {
        let name = normal_name(raw);
        match self.class {
            Some(cls) => if has_text(name, "::"@) {
                name
            } else {
                cls + "::"@ + name
            },
            None => if has_text(name, "::"@) {
                if ns_named(self.ns, first_segment(name), 0) || !self.is_cpp {
                    name
                } else {
                    self.qualified(name)
                }
            } else {
                self.qualified(raw)
            },
        }
    }

    /// The class that a qualified name is a member of: the longest of the
    /// first `k` prefixes that names one.
    pub open spec fn owner_class(self, name: Seq<char>, k: int) -> Option<Seq<char>>
        decreases k,
    {
        let at = cuts(name, 0);
        if k <= 0 || k > at.len() {
            None
        } else if self.tagged(name.take(at[k - 1])) is Some {
            Some(name.take(at[k - 1]))
        } else {
            self.owner_class(name, k - 1)
        }
    }

    /// The class of a function that is defined here.
    pub open spec fn class_around(self, name: Seq<char>) -> Option<Seq<char>> {
        match self.class {
            Some(cls) => Some(cls),
            None => self.owner_class(name, cuts(name, 0).len() as int),
        }
    }

    /// With the object that a member function is called on as a parameter.
    pub open spec fn with_this(self, n: NodeV, f: FnId, cls: Option<Seq<char>>) -> (
        LowerV,
        Seq<VarId>,
    ) {
        match cls {
            Some(name) => {
                let d = DescV::Ptr(Box::new(DescV::Struct { name, fields: Seq::empty() }));
                let types = self.p.types.interned(d);
                let (s, span) = self.with_types(types).placed(n);
                (
                    s.with_var(
                        "this"@,
                        types.id_of(d),
                        StorageClass::Param,
                        Some(f),
                        Some(0),
                        span,
                        true,
                    ),
                    seq![s.next_var()],
                )
            },
            None => (self, Seq::empty()),
        }
    }

    /// The names of the first `k` parameters.
    pub open spec fn param_names(self, params: Seq<VarId>, k: int) -> Map<Seq<char>, u32>
        decreases k,
    {
        if k <= 0 {
            Map::empty()
        } else {
            let m = self.param_names(params, k - 1);
            match self.p.symbols.variable(params[k - 1]) {
                Some(v) => m.insert(v.name, params[k - 1].0),
                None => m,
            }
        }
    }

    /// After the head of a function, inside it; and the function.
    pub open spec fn after_head(self, n: NodeV, decl: NodeV, raw: Seq<char>) -> (
        LowerV,
        FnId,
    ) {
        let name = self.full_name(raw);
        let cls = self.class_around(name);
        let (s0, return_type) = match child_field(n, FieldName::Type) {
            Some(t) => self.after_type_node(t),
            None => (self, self.int_type()),
        };
        let id = s0.next_fn();
        let (s1, this) = s0.with_fn_id().with_this(n, id, cls);
        let (s2, params) = s1.after_all_params(decl, id, this);
        let (s3, span) = s2.placed(n);
        let (s4, f) = s3.with_owner(
            FnV {
                id,
                name,
                linkage: if static_from(n, 0) || self.in_anonymous() {
                    Linkage::Internal
                } else {
                    Linkage::External
                },
                return_type,
                params,
                locals: Seq::empty(),
                span,
                file: self.file,
                is_defined: true,
                is_virtual: is_virtual(n),
                is_cpp: self.is_cpp,
            },
        );
        (
            LowerV {
                current_fn: Some(f),
                locals: s4.param_names(params, params.len() as int),
                class: cls,
                ..s4
            },
            f,
        )
    }

    /// After the first `k` member initializers of a function.
    pub open spec fn after_init_lists(self, n: NodeV, f: FnId, k: int) -> LowerV
        decreases k,
    {
        if k <= 0 {
            self
        } else {
            let s = self.after_init_lists(n, f, k - 1);
            if n.children[k - 1].kind == NodeKind::FieldInitializerList {
                s.after_body(n.children[k - 1], f)
            } else {
                s
            }
        }
    }

    /// After the definition of a function.
    pub open spec fn after_function(self, n: NodeV) -> LowerV {
        let decl = match child_field(n, FieldName::Declarator) {
            Some(d) => Some(d),
            None => function_declarator(n),
        };
        match decl {
            Some(d) => {
                let raw = declared(self.src, d).0;
                if raw.len() == 0 {
                    self
                } else {
                    let (s0, f) = self.after_head(n, d, raw);
                    let s1 = match child_field(n, FieldName::Body) {
                        Some(body) => s0.after_body(body, f),
                        None => s0,
                    };
                    let s2 = if self.is_cpp {
                        s1.after_init_lists(n, f, n.children.len() as int)
                    } else {
                        s1
                    };
                    LowerV { current_fn: None, locals: Map::empty(), class: self.class, ..s2 }
                }
            },
            None => self,
        }
    }

    /// With a member function that is declared in its class.
    pub open spec fn with_prototype(self, n: NodeV, cls: Seq<char>) -> LowerV {
        match short_name(self.src, n) {
            Some(short) => if short.len() == 0 || short == "operator"@ {
                self
            } else {
                let id = self.next_fn();
                let (s, span) = self.with_fn_id().placed(n);
                s.with_fn(
                    FnV {
                        id,
                        name: cls + "::"@ + short,
                        linkage: if self.in_anonymous() {
                            Linkage::Internal
                        } else {
                            Linkage::External
                        },
                        return_type: s.p.types.resolved(DescV::Void),
                        params: Seq::empty(),
                        locals: Seq::empty(),
                        span,
                        file: self.file,
                        is_defined: false,
                        is_virtual: is_virtual(n),
                        is_cpp: self.is_cpp,
                    },
                ).0
            },
            None => self,
        }
    }

    /// With the member functions that the first `k` parts of a class declare.
    pub open spec fn with_prototypes(self, body: NodeV, cls: Seq<char>, k: int) -> LowerV
        decreases k,
    {
        if k <= 0 {
            self
        } else {
            let s = self.with_prototypes(body, cls, k - 1);
            let m = body.children[k - 1];
            if (m.kind == NodeKind::FieldDeclaration || m.kind == NodeKind::Declaration)
                && declares_function(m) {
                s.with_prototype(m, cls)
            } else {
                s
            }
        }
    }

    /// After the member functions that the first `k` parts of a class define.
    pub open spec fn after_methods(self, body: NodeV, cls: Seq<char>, k: int) -> LowerV
        decreases k,
    {
        if k <= 0 {
            self
        } else {
            let s = self.after_methods(body, cls, k - 1);
            let m = body.children[k - 1];
            if m.kind == NodeKind::FunctionDefinition {
                LowerV { class: Some(cls), ..s }.after_function(m)
            } else {
                s
            }
        }
    }

    /// After the member functions of a class.
    pub open spec fn after_members(self, n: NodeV, cls: Seq<char>) -> LowerV {
        match child_field(n, FieldName::Body) {
            Some(body) => {
                let k = body.children.len() as int;
                LowerV {
                    class: self.class,
                    ..self.with_prototypes(body, cls, k).after_methods(body, cls, k)
                }
            },
            None => self,
        }
    }

    /// With a namespace made visible.
    pub open spec fn after_using(self, n: NodeV) -> LowerV {
        match using_target(self.src, n, n.children.len() as int) {
            Some(t) => if child_kind(n, NodeKind::NamespaceWord) is Some {
                LowerV { usings: with_name(self.usings, t), ..self }
            } else {
                self
            },
            None => self,
        }
    }

    /// The name of a namespace.
    pub open spec fn namespace_name(self, n: NodeV) -> Option<Seq<char>> {
        match child_kind(n, NodeKind::NamespaceIdentifier) {
            Some(m) => Some(normal_name(text_of(self.src, m))),
            None => None,
        }
    }

    /// After a part of a file.
    pub open spec fn after_tree(self, n: NodeV) -> LowerV
        decreases n, 1int, 0int,
    {
        if n.kind == NodeKind::FunctionDefinition {
            self.after_function(n)
        } else if n.kind == NodeKind::Declaration {
            self.after_declaration(n)
        } else if n.kind == NodeKind::StructSpecifier || n.kind == NodeKind::UnionSpecifier {
            self.after_struct(n).0
        } else if n.kind == NodeKind::ClassSpecifier {
            let (s, tag) = self.after_struct(n);
            s.after_members(n, tag)
        } else if n.kind == NodeKind::NamespaceDefinition {
            LowerV {
                ns: self.ns,
                ..LowerV { ns: self.ns.push(self.namespace_name(n)), ..self }.after_lists(
                    n,
                    n.children.len() as int,
                )
            }
        } else if n.kind == NodeKind::UsingDeclaration {
            self.after_using(n)
        } else if n.kind == NodeKind::TypeDefinition {
            self.after_typedef(n)
        } else {
            self.after_trees(n, n.children.len() as int)
        }
    }

    /// After the first `k` children of a part of a file. The parameters of a
    /// template are no declarations.
    pub open spec fn after_trees(self, n: NodeV, k: int) -> LowerV
        decreases n, 0int, k,
    {
        if k <= 0 || k > n.children.len() {
            self
        } else {
            let s = self.after_trees(n, k - 1);
            if n.kind == NodeKind::TemplateDeclaration && n.children[k - 1].kind
                == NodeKind::TemplateParameterList {
                s
            } else {
                s.after_tree(n.children[k - 1])
            }
        }
    }

    /// After the lists of declarations among the first `k` children of a
    /// namespace.
    pub open spec fn after_lists(self, n: NodeV, k: int) -> LowerV
        decreases n, 0int, k,
    {
        if k <= 0 || k > n.children.len() {
            self
        } else {
            let s = self.after_lists(n, k - 1);
            if n.children[k - 1].kind == NodeKind::DeclarationList {
                s.after_trees(n.children[k - 1], n.children[k - 1].children.len() as int)
            } else {
                s
            }
        }
    }
}

/// The name that the first `k` children of a `using` declaration end with.
pub open spec fn using_target(src: Seq<char>, n: NodeV, k: int) -> Option<Seq<char>>
    decreases k,
{
    if k <= 0 {
        None
    } else if n.children[k - 1].kind == NodeKind::Identifier || n.children[k - 1].kind
        == NodeKind::QualifiedIdentifier || n.children[k - 1].kind
        == NodeKind::NamespaceIdentifier {
        Some(normal_name(text_of(src, n.children[k - 1])))
    } else {
        using_target(src, n, k - 1)
    }
}

impl Lower {
    /// Lowers a parameter.
    pub fn lower_parameter(&mut self, n: &SyntaxNode, f: FnId, index: u32) -> (r: Option<VarId>)
        requires
            old(self).wf(),
        ensures
            final(self).wf(),
            (final(self)@, r) == old(self)@.after_param(n@, f, index),
    {
        let decl = match n.child_by_field(FieldName::Declarator) {
            Some(d) => d,
            None => {
                return None;
            },
        };
        let (name, is_pointer) = parse_declarator_name(&self.source, decl);
        if name.as_str().is_empty() {
            return None;
        }
        let base = match n.child_by_field(FieldName::Type) {
            Some(t) => self.type_desc_from_node(t),
            None => TypeDesc::Int,
        };
        let d = if is_pointer {
            TypeDesc::Ptr(Box::new(base))
        } else {
            base
        };
        let type_id = self.intern(d);
        let span = self.node_span(n);
        let v = self.add_var(
            name.clone(),
            type_id,
            StorageClass::Param,
            Some(f),
            Some(index),
            span,
            is_pointer,
        );
        self.register_local(name, v);
        Some(v)
    }

    fn lower_params(&mut self, decl: &SyntaxNode, f: FnId, params: &mut Vec<VarId>)
        requires
            old(self).wf(),
        ensures
            final(self).wf(),
            (final(self)@, final(params)@) == old(self)@.after_all_params(decl@, f, old(params)@),
    {
        if let Some(list) = find_params(decl) {
            let ghost start = self@;
            let ghost given = params@;
            let mut i: usize = 0;
            while i < list.children.len()
                invariant
                    i <= list@.children.len(),
                    self.wf(),
                    (self@, params@) == start.after_params(list@, f, given, i as int),
                decreases list@.children.len() - i,
            {
                let c = &list.children[i];
                if c.kind == NodeKind::ParameterDeclaration {
                    let index = params.len() as u32;
                    if let Some(v) = self.lower_parameter(c, f, index) {
                        params.push(v);
                    }
                }
                i = i + 1;
            }
        }
    }

    fn add_owner(&mut self, f: Function) -> (r: FnId)
        requires
            old(self).wf(),
        ensures
            final(self).wf(),
            (final(self)@, r) == old(self)@.with_owner(f@),
    {
        let given = f.id;
        let id = self.program.symbols.add_function(f);
        self.program.symbols.reassign_fn_id(given, id);
        id
    }

    /// Lowers the declaration of a function.
    pub fn lower_function_decl(&mut self, decl: &SyntaxNode, return_type: TypeId, is_static: bool)
        requires
            old(self).wf(),
        ensures
            final(self).wf(),
            final(self)@ == old(self)@.after_fn_decl(decl@, return_type, is_static),
    {
        let file = self.file;
        let is_cpp = self.is_cpp;
        let (name, _pointer) = parse_declarator_name(&self.source, decl);
        if name.as_str().is_empty() {
            return ;
        }
        let id = self.program.symbols.alloc_fn_id();
        let mut params: Vec<VarId> = Vec::new();
        assert(params@ =~= Seq::empty());
        self.lower_params(decl, id, &mut params);
        let span = self.node_span(decl);
        let locals: Vec<VarId> = Vec::new();
        assert(locals@ =~= Seq::empty());
        self.add_owner(
            Function {
                id,
                name,
                linkage: if is_static {
                    Linkage::Internal
                } else {
                    Linkage::External
                },
                return_type,
                params,
                locals,
                span,
                file,
                is_defined: false,
                is_virtual: false,
                is_cpp,
            },
        );
    }

    fn push_array_fn_member(&mut self, array: VarId, n: &SyntaxNode)
        requires
            old(self).wf(),
        ensures
            final(self).wf(),
            final(self)@ == old(self)@.with_array_member(array, n@),
    {
        if let Some(callee) = self.resolve_call_fn_arg(n) {
            self.add_flow(FlowConstraint::ArrayFnMember { array, callee });
        }
    }

    /// Notes the functions among the initializers of an array.
    pub fn lower_fn_ptr_array_init(&mut self, array: VarId, n: &SyntaxNode)
        requires
            old(self).wf(),
        ensures
            final(self).wf(),
            final(self)@ == old(self)@.with_array_members(array, n@),
        decreases n@,
    {
        let ghost start = self@;
        let mut i: usize = 0;
        while i < n.children.len()
            invariant
                i <= n@.children.len(),
                self.wf(),
                self@ == start.with_array_parts(array, n@, i as int),
            decreases n@.children.len() - i,
        {
            let c = &n.children[i];
            match c.kind {
                NodeKind::OpenParen | NodeKind::CloseParen | NodeKind::Comma => {},
                NodeKind::InitializerList => {
                    self.lower_fn_ptr_array_init(array, c);
                },
                NodeKind::InitializerPair | NodeKind::DesignatedInitializer => {
                    if let Some(value) = init_pair_value_node(c) {
                        if value.kind == NodeKind::InitializerList {
                            if !list_has_field_designators(value) {
                                self.lower_fn_ptr_array_init(array, value);
                            }
                        } else {
                            self.push_array_fn_member(array, value);
                        }
                    }
                },
                _ => {
                    self.push_array_fn_member(array, c);
                },
            }
            i = i + 1;
        }
    }

    fn is_array_type(&self, t: TypeId) -> (r: bool)
        ensures
            r == self@.is_array(t),
    {
        match self.program.types.get(t) {
            Some(info) => match &info.desc {
                TypeDesc::Array { elem, size } => true,
                _ => false,
            },
            None => false,
        }
    }

    fn lower_initial(&mut self, v: VarId, t: TypeId, decl: &SyntaxNode, init: &SyntaxNode)
        requires
            old(self).wf(),
        ensures
            final(self).wf(),
            final(self)@ == old(self)@.after_initial(v, t, decl@, init@),
    {
        if init.kind == NodeKind::InitializerList && (self.is_array_type(t)
            || declarator_is_array(decl)) {
            self.lower_fn_ptr_array_init(v, init);
        }
        self.extract_flow_from_expr(init, Some(v));
    }

    fn add_declared(
        &mut self,
        name: String,
        t: TypeId,
        is_static: bool,
        at: &SyntaxNode,
        is_pointer: bool,
    ) -> (r: VarId)
        requires
            old(self).wf(),
        ensures
            final(self).wf(),
            final(self)@ == old(self)@.with_declared(name@, t, is_static, at@, is_pointer),
            r == old(self)@.next_var(),
    {
        let storage = self.storage_for(is_static);
        let owner = self.current_fn;
        let span = self.node_span(at);
        let v = self.add_var(name.clone(), t, storage, owner, None, span, is_pointer);
        self.register_local(name, v);
        v
    }

    fn find_constructed(&self, t: TypeId) -> (r: Option<String>)
        ensures
            opt_view(r) == self@.constructed(t),
    {
        match self.program.types.get(t) {
            Some(info) => match &info.desc {
                TypeDesc::Struct { name, fields } => {
                    if !name.as_str().is_empty() && !begins_with(name.as_str(), "anon_") {
                        Some(name.clone())
                    } else {
                        None
                    }
                },
                _ => None,
            },
            None => None,
        }
    }

    fn lower_construction(&mut self, at: &SyntaxNode, t: TypeId, init: Option<&SyntaxNode>)
        requires
            old(self).wf(),
        ensures
            final(self).wf(),
            final(self)@ == old(self)@.after_construction(
                at@,
                t,
                match init {
                    Some(e) => Some(e@),
                    None => None,
                },
            ),
    {
        if !self.is_cpp || at.kind != NodeKind::InitDeclarator {
            return ;
        }
        let f = match self.current_fn {
            Some(f) => f,
            None => {
                return ;
            },
        };
        let list = match init {
            Some(e) => if e.kind == NodeKind::ArgumentList {
                Some(e)
            } else {
                at.child_by_kind(NodeKind::ArgumentList)
            },
            None => at.child_by_kind(NodeKind::ArgumentList),
        };
        if list.is_none() {
            return ;
        }
        if let Some(cls) = self.find_constructed(t) {
            let span = self.node_span(at);
            let args = self.collect_call_args(list);
            self.emit_member_sites(f, cls.as_str(), &MethodKind::Ctor, &args, span);
        }
    }

    /// Lowers one declarator.
    pub fn lower_one_declarator(
        &mut self,
        at: &SyntaxNode,
        decl: &SyntaxNode,
        t: TypeId,
        is_static: bool,
        init: Option<&SyntaxNode>,
    )
        requires
            old(self).wf(),
        ensures
            final(self).wf(),
            final(self)@ == old(self)@.after_declarator(
                at@,
                decl@,
                t,
                is_static,
                match init {
                    Some(e) => Some(e@),
                    None => None,
                },
            ),
    {
        let (name, is_pointer) = parse_declarator_name(&self.source, decl);
        if is_function_pointer_declarator(decl) {
            if name.as_str().is_empty() {
                return ;
            }
            let v = self.add_declared(name, t, is_static, at, true);
            if let Some(e) = init {
                self.lower_initial(v, t, decl, e);
            }
            return ;
        }
        if decl.kind == NodeKind::FunctionDeclarator {
            self.lower_function_decl(decl, t, is_static);
            return ;
        }
        if name.as_str().is_empty() {
            return ;
        }
        let v = self.add_declared(name, t, is_static, at, is_pointer);
        self.lower_construction(at, t, init);
        if let Some(e) = init {
            if e.kind != NodeKind::ArgumentList {
                self.lower_initial(v, t, decl, e);
            }
        }
    }

    fn intern_pointer(&mut self, t: TypeId, k: u32) -> (r: TypeId)
        requires
            old(self).wf(),
        ensures
            final(self).wf(),
            (final(self)@, r) == old(self)@.pointer_to(t, k),
        decreases k,
    {
        if k == 0 {
            return t;
        }
        let u = self.intern_pointer(t, k - 1);
        let d = match self.program.types.get(u) {
            Some(info) => clone_desc(&info.desc),
            None => {
                return u;
            },
        };
        self.intern(TypeDesc::Ptr(Box::new(d)))
    }

    fn deduce(&mut self, type_node: &SyntaxNode, t: TypeId, init: Option<&SyntaxNode>) -> (r:
        TypeId)
        requires
            old(self).wf(),
        ensures
            final(self).wf(),
            (final(self)@, r) == old(self)@.deduced(
                type_node@,
                t,
                match init {
                    Some(e) => Some(e@),
                    None => None,
                },
            ),
    {
        if let Some(e) = init {
            if type_node.kind == NodeKind::PlaceholderTypeSpecifier && e.kind
                == NodeKind::NewExpression {
                if let Some(cls) = self.new_expression_class(e) {
                    let inner = self.intern(bare_struct(cls));
                    return self.intern_pointer(inner, 1);
                }
            }
        }
        t
    }

    fn lower_declared(
        &mut self,
        type_node: &SyntaxNode,
        c: &SyntaxNode,
        t: TypeId,
        is_static: bool,
    )
        requires
            old(self).wf(),
        ensures
            final(self).wf(),
            final(self)@ == old(self)@.after_declared(type_node@, c@, t, is_static),
    {
        match c.kind {
            NodeKind::InitDeclarator => {
                let decl = match c.child_by_field(FieldName::Declarator) {
                    Some(d) => d,
                    None => c,
                };
                let init = c.child_by_field(FieldName::Value);
                let u = self.deduce(type_node, t, init);
                self.lower_one_declarator(c, decl, u, is_static, init);
            },
            NodeKind::Declarator | NodeKind::PointerDeclarator | NodeKind::FunctionDeclarator
            | NodeKind::ArrayDeclarator => {
                match fn_decl_under_pointer(c, 0) {
                    Some((decl, depth)) => {
                        let u = self.intern_pointer(t, depth);
                        self.lower_function_decl(decl, u, is_static);
                    },
                    None => {
                        self.lower_one_declarator(c, c, t, is_static, None);
                    },
                }
            },
            NodeKind::Identifier => {
                let name = node_text(&self.source, c);
                if !name.as_str().is_empty() {
                    self.add_declared(name, t, is_static, c, false);
                }
            },
            _ => {},
        }
    }

    /// Lowers a declaration.
    pub fn lower_declaration(&mut self, n: &SyntaxNode)
        requires
            old(self).wf(),
        ensures
            final(self).wf(),
            final(self)@ == old(self)@.after_declaration(n@),
    {
        let type_node = match n.child_by_field(FieldName::Type) {
            Some(t) => t,
            None => {
                return ;
            },
        };
        let t = self.parse_type_node(type_node);
        let is_static = declaration_is_static(n);
        let ghost start = self@;
        let mut i: usize = 0;
        while i < n.children.len()
            invariant
                i <= n@.children.len(),
                self.wf(),
                is_static == static_from(n@, 0),
                self@ == start.after_declarators(n@, type_node@, t, i as int),
            decreases n@.children.len() - i,
        {
            self.lower_declared(type_node, &n.children[i], t, is_static);
            i = i + 1;
        }
    }

    fn lower_body_node(&mut self, n: &SyntaxNode, caller: FnId)
        requires
            old(self).wf(),
        ensures
            final(self).wf(),
            final(self)@ == old(self)@.after_node(n@, caller),
    {
        match n.kind {
            NodeKind::Declaration => {
                self.lower_declaration(n);
            },
            NodeKind::AssignmentExpression => {
                self.extract_flow_from_expr(n, None);
            },
            NodeKind::CallExpression => {
                self.collect_call_at_node(n, caller);
            },
            NodeKind::ReturnStatement => {
                self.collect_return_statement(n, caller);
            },
            NodeKind::NewExpression => {
                if self.is_cpp {
                    if let Some(cls) = self.new_expression_class(n) {
                        let span = self.node_span(n);
                        let list = n.child_by_kind(NodeKind::ArgumentList);
                        let args = self.collect_call_args(list);
                        self.emit_member_sites(
                            caller,
                            cls.as_str(),
                            &MethodKind::Ctor,
                            &args,
                            span,
                        );
                    }
                }
            },
            NodeKind::DeleteExpression => {
                if self.is_cpp {
                    if let Some(operand) = find_last_named(n) {
                        if let Some(cls) = self.infer_static_class(operand) {
                            let span = self.node_span(n);
                            let args = CallArgs::new();
                            self.emit_member_sites(
                                caller,
                                cls.as_str(),
                                &MethodKind::Dtor,
                                &args,
                                span,
                            );
                        }
                    }
                }
            },
            NodeKind::FieldInitializerList => {
                if self.is_cpp {
                    self.lower_field_initializer_list(n, caller);
                }
            },
            _ => {},
        }
    }

    /// Lowers a part of a body.
    pub fn walk_function_body(&mut self, n: &SyntaxNode, caller: FnId)
        requires
            old(self).wf(),
        ensures
            final(self).wf(),
            final(self)@ == old(self)@.after_body(n@, caller),
        decreases n@,
    {
        self.lower_body_node(n, caller);
        let ghost start = self@;
        let mut i: usize = 0;
        while i < n.children.len()
            invariant
                i <= n@.children.len(),
                self.wf(),
                self@ == start.after_bodies(n@, caller, i as int),
            decreases n@.children.len() - i,
        {
            self.walk_function_body(&n.children[i], caller);
            i = i + 1;
        }
    }

    fn full_name_of(&self, raw: &str) -> (r: String)
        ensures
            r@ == self@.full_name(raw@),
    {
        let name = normalize_qualified(raw);
        let has_scope = contains_text(name.as_str(), "::");
        match &self.class {
            Some(cls) => if has_scope {
                name
            } else {
                cat3(cls.as_str(), "::", name.as_str())
            },
            None => if has_scope {
                let first = first_part(name.as_str());
                if self.in_namespace(first.as_str()) || !self.is_cpp {
                    name
                } else {
                    self.qualify(name.as_str())
                }
            } else {
                self.qualify(raw)
            },
        }
    }

    /// The class that a qualified name is a member of.
    pub fn derive_owner_class(&self, name: &str) -> (r: Option<String>)
        ensures
            opt_view(r) == self@.owner_class(name@, cuts(name@, 0).len() as int),
    {
        let cs = chars_of(name);
        let at = find_cuts(&cs);
        let ghost all = cuts(name@, 0);
        assert(all == as_ints(at@));
        let mut k: usize = at.len();
        while k > 0
            invariant
                cs@ == name@,
                all == as_ints(at@),
                all == cuts(name@, 0),
                k <= at@.len(),
                forall|i: int| 0 <= i < at@.len() ==> #[trigger] at@[i] <= name@.len(),
                self@.owner_class(name@, k as int) == self@.owner_class(name@, all.len() as int),
            decreases k,
        {
            let end = at[k - 1];
            let candidate = string_of(&cs, 0, end);
            assert(all[k - 1] == end as int);
            assert(candidate@ =~= name@.take(end as int));
            if self.program.types.type_id_by_tag(candidate.as_str(), TypeKind::Struct).is_some() {
                return Some(candidate);
            }
            k = k - 1;
        }
        None
    }

    fn class_of_function(&self, name: &str) -> (r: Option<String>)
        ensures
            opt_view(r) == self@.class_around(name@),
    {
        match &self.class {
            Some(c) => Some(c.clone()),
            None => self.derive_owner_class(name),
        }
    }

    fn add_this(&mut self, n: &SyntaxNode, f: FnId, cls: &Option<String>) -> (r: Vec<VarId>)
        requires
            old(self).wf(),
        ensures
            final(self).wf(),
            (final(self)@, r@) == old(self)@.with_this(n@, f, opt_view(*cls)),
    {
        let mut params: Vec<VarId> = Vec::new();
        assert(params@ =~= Seq::empty());
        if let Some(name) = cls {
            let t = self.intern(TypeDesc::Ptr(Box::new(bare_struct(name.clone()))));
            let span = self.node_span(n);
            let v = self.add_var(
                owned("this"),
                t,
                StorageClass::Param,
                Some(f),
                Some(0),
                span,
                true,
            );
            params.push(v);
            assert(params@ =~= seq![v]);
        }
        params
    }

    fn enter_function(&mut self, f: FnId, params: &Vec<VarId>, cls: Option<String>)
        requires
            old(self).wf(),
        ensures
            final(self).wf(),
            final(self)@ == (LowerV {
                current_fn: Some(f),
                locals: old(self)@.param_names(params@, params@.len() as int),
                class: opt_view(cls),
                ..old(self)@
            }),
    {
        let mut locals = fx_name_map();
        let mut i: usize = 0;
        while i < params.len()
            invariant
                i <= params@.len(),
                fx_names(locals) == self@.param_names(params@, i as int),
            decreases params@.len() - i,
        {
            if let Some(v) = self.program.symbols.variable_by_id(params[i]) {
                fx_name_insert(&mut locals, v.name.clone(), params[i].0);
            }
            i = i + 1;
        }
        self.current_fn = Some(f);
        self.locals = locals;
        self.class = cls;
    }

    fn lower_head(&mut self, n: &SyntaxNode, decl: &SyntaxNode, raw: &str) -> (r: FnId)
        requires
            old(self).wf(),
        ensures
            final(self).wf(),
            (final(self)@, r) == old(self)@.after_head(n@, decl@, raw@),
    {
        let file = self.file;
        let is_cpp = self.is_cpp;
        let name = self.full_name_of(raw);
        let cls = self.class_of_function(name.as_str());
        let is_static = declaration_is_static(n) || self.in_anonymous_namespace();
        let return_type = match n.child_by_field(FieldName::Type) {
            Some(t) => self.parse_type_node(t),
            None => self.type_int(),
        };
        let id = self.program.symbols.alloc_fn_id();
        let mut params = self.add_this(n, id, &cls);
        self.lower_params(decl, id, &mut params);
        let span = self.node_span(n);
        let locals: Vec<VarId> = Vec::new();
        assert(locals@ =~= Seq::empty());
        let own = clone_var_ids(&params);
        let f = self.add_owner(
            Function {
                id,
                name,
                linkage: if is_static {
                    Linkage::Internal
                } else {
                    Linkage::External
                },
                return_type,
                params: own,
                locals,
                span,
                file,
                is_defined: true,
                is_virtual: n.child_by_kind(NodeKind::VirtualWord).is_some(),
                is_cpp,
            },
        );
        self.enter_function(f, &params, cls);
        f
    }

    /// Lowers the definition of a function.
    pub fn lower_function(&mut self, n: &SyntaxNode)
        requires
            old(self).wf(),
        ensures
            final(self).wf(),
            final(self)@ == old(self)@.after_function(n@),
    {
        let is_cpp = self.is_cpp;
        let decl = match n.child_by_field(FieldName::Declarator) {
            Some(d) => d,
            None => match find_function_declarator(n) {
                Some(d) => d,
                None => {
                    return ;
                },
            },
        };
        let (raw, _pointer) = parse_declarator_name(&self.source, decl);
        if raw.as_str().is_empty() {
            return ;
        }
        let saved = clone_opt(&self.class);
        let f = self.lower_head(n, decl, raw.as_str());
        if let Some(body) = n.child_by_field(FieldName::Body) {
            self.walk_function_body(body, f);
        }
        if is_cpp {
            let ghost start = self@;
            let mut i: usize = 0;
            while i < n.children.len()
                invariant
                    i <= n@.children.len(),
                    self.wf(),
                    self@ == start.after_init_lists(n@, f, i as int),
                decreases n@.children.len() - i,
            {
                if n.children[i].kind == NodeKind::FieldInitializerList {
                    self.walk_function_body(&n.children[i], f);
                }
                i = i + 1;
            }
        }
        self.current_fn = None;
        self.locals = fx_name_map();
        self.class = saved;
    }

    fn register_member_prototype(&mut self, n: &SyntaxNode, cls: &str)
        requires
            old(self).wf(),
        ensures
            final(self).wf(),
            final(self)@ == old(self)@.with_prototype(n@, cls@),
    {
        let file = self.file;
        let is_cpp = self.is_cpp;
        let short = match member_short_name(&self.source, n) {
            Some(s) => s,
            None => {
                return ;
            },
        };
        if short.as_str().is_empty() || str_eq(short.as_str(), "operator") {
            return ;
        }
        let linkage = if self.in_anonymous_namespace() {
            Linkage::Internal
        } else {
            Linkage::External
        };
        let name = cat3(cls, "::", short.as_str());
        let id = self.program.symbols.alloc_fn_id();
        let span = self.node_span(n);
        let return_type = self.program.types.resolve_type_id(&TypeDesc::Void);
        let params: Vec<VarId> = Vec::new();
        assert(params@ =~= Seq::empty());
        let locals: Vec<VarId> = Vec::new();
        assert(locals@ =~= Seq::empty());
        self.program.symbols.add_function(
            Function {
                id,
                name,
                linkage,
                return_type,
                params,
                locals,
                span,
                file,
                is_defined: false,
                is_virtual: n.child_by_kind(NodeKind::VirtualWord).is_some(),
                is_cpp,
            },
        );
    }

    /// Lowers the member functions of a class: first what it declares, so that
    /// definitions find it, then what it defines.
    pub fn lower_class_members(&mut self, n: &SyntaxNode, cls: &str)
        requires
            old(self).wf(),
        ensures
            final(self).wf(),
            final(self)@ == old(self)@.after_members(n@, cls@),
    {
        let body = match n.child_by_field(FieldName::Body) {
            Some(b) => b,
            None => {
                return ;
            },
        };
        let saved = clone_opt(&self.class);
        let ghost start = self@;
        let mut i: usize = 0;
        while i < body.children.len()
            invariant
                i <= body@.children.len(),
                self.wf(),
                self@ == start.with_prototypes(body@, cls@, i as int),
            decreases body@.children.len() - i,
        {
            let m = &body.children[i];
            if (m.kind == NodeKind::FieldDeclaration || m.kind == NodeKind::Declaration)
                && member_decl_is_function(m) {
                self.register_member_prototype(m, cls);
            }
            i = i + 1;
        }
        let ghost mid = self@;
        let mut j: usize = 0;
        while j < body.children.len()
            invariant
                j <= body@.children.len(),
                self.wf(),
                self@ == mid.after_methods(body@, cls@, j as int),
            decreases body@.children.len() - j,
        {
            let m = &body.children[j];
            if m.kind == NodeKind::FunctionDefinition {
                self.class = Some(owned(cls));
                self.lower_function(m);
            }
            j = j + 1;
        }
        self.class = saved;
    }

    /// Notes a namespace that is made visible.
    pub fn lower_using_declaration(&mut self, n: &SyntaxNode)
        requires
            old(self).wf(),
        ensures
            final(self).wf(),
            final(self)@ == old(self)@.after_using(n@),
    {
        let mut target: Option<String> = None;
        let mut i: usize = 0;
        while i < n.children.len()
            invariant
                i <= n@.children.len(),
                opt_view(target) == using_target(self@.src, n@, i as int),
            decreases n@.children.len() - i,
        {
            let c = &n.children[i];
            if c.kind == NodeKind::Identifier || c.kind == NodeKind::QualifiedIdentifier || c.kind
                == NodeKind::NamespaceIdentifier {
                let text = node_text(&self.source, c);
                target = Some(normalize_qualified(text.as_str()));
            }
            i = i + 1;
        }
        if n.child_by_kind(NodeKind::NamespaceWord).is_some() {
            if let Some(t) = target {
                add_name(&mut self.usings, t.as_str());
            }
        }
    }

    fn namespace_of(&self, n: &SyntaxNode) -> (r: Option<String>)
        ensures
            opt_view(r) == self@.namespace_name(n@),
    {
        match n.child_by_kind(NodeKind::NamespaceIdentifier) {
            Some(m) => {
                let text = node_text(&self.source, m);
                Some(normalize_qualified(text.as_str()))
            },
            None => None,
        }
    }

    /// Lowers a namespace.
    fn lower_namespace(&mut self, n: &SyntaxNode)
        requires
            old(self).wf(),
            n.kind == NodeKind::NamespaceDefinition,
        ensures
            final(self).wf(),
            final(self)@ == old(self)@.after_tree(n@),
        decreases n@, 0int,
    {
        let name = self.namespace_of(n);
        let ghost around = self@.ns;
        let saved = self.clone_namespaces();
        let ghost given = opt_view(name);
        let ghost before = self.ns@;
        self.ns.push(name);
        assert(opts_view(self.ns@) =~= around.push(given));
        let ghost start = self@;
        let mut i: usize = 0;
        while i < n.children.len()
            invariant
                i <= n@.children.len(),
                self.wf(),
                self@ == start.after_lists(n@, i as int),
            decreases n@.children.len() - i,
        {
            let c = &n.children[i];
            if c.kind == NodeKind::DeclarationList {
                self.lower_trees(c);
            }
            i = i + 1;
        }
        self.ns = saved;
    }

    fn clone_namespaces(&self) -> (r: Vec<Option<String>>)
        ensures
            opts_view(r@) == self@.ns,
    {
        let mut out: Vec<Option<String>> = Vec::new();
        let mut i: usize = 0;
        while i < self.ns.len()
            invariant
                i <= self.ns@.len(),
                out@.len() == i,
                forall|j: int| 0 <= j < i ==> opt_view(#[trigger] out@[j]) == opt_view(self.ns@[j]),
            decreases self.ns@.len() - i,
        {
            out.push(clone_opt(&self.ns[i]));
            i = i + 1;
        }
        assert(opts_view(out@) =~= self@.ns);
        out
    }

    fn lower_trees(&mut self, n: &SyntaxNode)
        requires
            old(self).wf(),
        ensures
            final(self).wf(),
            final(self)@ == old(self)@.after_trees(n@, n@.children.len() as int),
        decreases n@, 0int,
    {
        let ghost start = self@;
        let mut i: usize = 0;
        while i < n.children.len()
            invariant
                i <= n@.children.len(),
                self.wf(),
                self@ == start.after_trees(n@, i as int),
            decreases n@.children.len() - i,
        {
            let c = &n.children[i];
            if n.kind != NodeKind::TemplateDeclaration || c.kind
                != NodeKind::TemplateParameterList {
                self.lower_tree(c);
            }
            i = i + 1;
        }
    }

    /// Lowers a part of a file.
    pub fn lower_tree(&mut self, n: &SyntaxNode)
        requires
            old(self).wf(),
        ensures
            final(self).wf(),
            final(self)@ == old(self)@.after_tree(n@),
        decreases n@, 1int,
    {
        match n.kind {
            NodeKind::FunctionDefinition => {
                self.lower_function(n);
            },
            NodeKind::Declaration => {
                self.lower_declaration(n);
            },
            NodeKind::StructSpecifier | NodeKind::UnionSpecifier => {
                self.lower_struct_specifier(n);
            },
            NodeKind::ClassSpecifier => {
                let tag = self.lower_struct_specifier(n);
                self.lower_class_members(n, tag.as_str());
            },
            NodeKind::NamespaceDefinition => {
                self.lower_namespace(n);
            },
            NodeKind::UsingDeclaration => {
                self.lower_using_declaration(n);
            },
            NodeKind::TypeDefinition => {
                self.lower_typedef(n);
            },
            _ => {
                self.lower_trees(n);
            },
        }
    }
}

} // verus!
