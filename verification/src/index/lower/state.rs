//! What is known while the tree of a unit is walked.

use crate::collections::{fx_name_get, fx_name_insert, fx_names};
use crate::index::syntax::{NodeV, SyntaxNode};
use crate::ir::flow::{push_flow, FlowConstraint, FlowV, ReturnFlow, ReturnV};
use crate::ir::ids::{FieldId, FileId, FnId, Span, TypeId, VarId};
use crate::ir::program::{with_return, Program, ProgramV};
use crate::ir::symbol::{count_up, next_number, StorageClass, SymbolsV, VarV, Variable};
use crate::ir::types::{DescV, TableV, TypeDesc, TypeKind};
use crate::preproc::line_map::{entry_covering, offset_u32, to_offset, LineMap, LineMapV};
use crate::text::{cat2, cat3, contains_text, decimal, decimal_of, has_text, names_view, str_eq};
use rustc_hash::FxHashMap;
use crate::index::names::{normal_name, normalize_qualified, strip_template_args, without_args};
use vstd::prelude::*;

verus! {

/// A use of a function's name that could not be resolved where it stands. The
/// function may be defined further down.
#[derive(Debug)]
pub enum PendingFnRef {
    /// `base.field = name`: `dst` is the address of the field.
    FieldStore { dst: VarId, name: String, span: Span },
    /// `dst = name`.
    RhsIdent { dst: VarId, name: String },
    /// `dst = &name`.
    AddrOfIdent { dst: VarId, name: String },
    /// `return name` in the function `owner`.
    ReturnIdent { owner: FnId, name: String },
    /// `return &name` in the function `owner`.
    ReturnAddrOf { owner: FnId, name: String },
}

/// The mathematical form of a [`PendingFnRef`].
pub enum PendV {
    FieldStore { dst: VarId, name: Seq<char>, span: Span },
    RhsIdent { dst: VarId, name: Seq<char> },
    AddrOfIdent { dst: VarId, name: Seq<char> },
    ReturnIdent { owner: FnId, name: Seq<char> },
    ReturnAddrOf { owner: FnId, name: Seq<char> },
}

impl View for PendingFnRef {
    type V = PendV;

    open spec fn view(&self) -> PendV {
        match *self {
            PendingFnRef::FieldStore { dst, name, span } => PendV::FieldStore {
                dst,
                name: name@,
                span,
            },
            PendingFnRef::RhsIdent { dst, name } => PendV::RhsIdent { dst, name: name@ },
            PendingFnRef::AddrOfIdent { dst, name } => PendV::AddrOfIdent { dst, name: name@ },
            PendingFnRef::ReturnIdent { owner, name } => PendV::ReturnIdent { owner, name: name@ },
            PendingFnRef::ReturnAddrOf { owner, name } => PendV::ReturnAddrOf {
                owner,
                name: name@,
            },
        }
    }
}

pub open spec fn pends_view(s: Seq<PendingFnRef>) -> Seq<PendV> {
    Seq::new(s.len(), |i: int| s[i]@)
}

/// A text that may be missing.
pub open spec fn opt_view(s: Option<String>) -> Option<Seq<char>> {
    match s {
        Some(x) => Some(x@),
        None => None,
    }
}

pub open spec fn opts_view(s: Seq<Option<String>>) -> Seq<Option<Seq<char>>> {
    Seq::new(s.len(), |i: int| opt_view(s[i]))
}

/// A copy of a text that may be missing.
pub fn clone_opt(s: &Option<String>) -> (r: Option<String>)
    ensures
        opt_view(r) == opt_view(*s),
{
    match s {
        Some(x) => Some(x.clone()),
        None => None,
    }
}

/// A unit that is being lowered.
pub struct Lower {
    pub program: Program,
    /// The preprocessed text.
    pub source: Vec<char>,
    /// Where the text comes from.
    pub lines: LineMap,
    /// The path of the unit.
    pub primary: String,
    pub file: FileId,
    pub is_cpp: bool,
    /// The function whose body is being lowered.
    pub current_fn: Option<FnId>,
    pub locals: FxHashMap<String, u32>,
    pub pending: Vec<PendingFnRef>,
    /// The namespaces around; an anonymous one has no name.
    pub ns: Vec<Option<String>>,
    /// The namespaces that have been made visible.
    pub usings: Vec<String>,
    /// The class whose member is being lowered.
    pub class: Option<String>,
}

/// The mathematical form of a [`Lower`].
#[verifier::ext_equal]
pub struct LowerV {
    pub p: ProgramV,
    pub src: Seq<char>,
    pub lines: LineMapV,
    pub primary: Seq<char>,
    pub file: FileId,
    pub is_cpp: bool,
    pub current_fn: Option<FnId>,
    pub locals: Map<Seq<char>, u32>,
    pub pending: Seq<PendV>,
    pub ns: Seq<Option<Seq<char>>>,
    pub usings: Seq<Seq<char>>,
    pub class: Option<Seq<char>>,
}

impl View for Lower {
    type V = LowerV;

    open spec fn view(&self) -> LowerV {
        LowerV {
            p: self.program@,
            src: self.source@,
            lines: self.lines@,
            primary: self.primary@,
            file: self.file,
            is_cpp: self.is_cpp,
            current_fn: self.current_fn,
            locals: fx_names(self.locals),
            pending: pends_view(self.pending@),
            ns: opts_view(self.ns@),
            usings: names_view(self.usings@),
            class: opt_view(self.class),
        }
    }
}

/// The first `n` namespaces that have names, each with `::` behind it.
pub open spec fn ns_prefix(ns: Seq<Option<Seq<char>>>, n: int) -> Seq<char>
    decreases n,
{
    if n <= 0 {
        Seq::empty()
    } else {
        match ns[n - 1] {
            Some(s) => ns_prefix(ns, n - 1) + s + "::"@,
            None => ns_prefix(ns, n - 1),
        }
    }
}

/// Whether one of the namespaces from `i` on has no name.
pub open spec fn anon_from(ns: Seq<Option<Seq<char>>>, i: int) -> bool
    decreases ns.len() - i,
{
    if i < 0 || i >= ns.len() {
        false
    } else {
        ns[i] is None || anon_from(ns, i + 1)
    }
}

/// Whether one of the namespaces from `i` on has a name.
pub open spec fn ns_named(ns: Seq<Option<Seq<char>>>, name: Seq<char>, i: int) -> bool
    decreases ns.len() - i,
{
    if i < 0 || i >= ns.len() {
        false
    } else {
        ns[i] == Some(name) || ns_named(ns, name, i + 1)
    }
}

impl LowerV {
    pub open spec fn with_program(self, p: ProgramV) -> LowerV {
        LowerV { p, ..self }
    }

    pub open spec fn with_symbols(self, symbols: SymbolsV) -> LowerV {
        self.with_program(ProgramV { symbols, ..self.p })
    }

    pub open spec fn with_types(self, types: TableV) -> LowerV {
        self.with_program(ProgramV { types, ..self.p })
    }

    /// With one more move of a value.
    pub open spec fn with_flow(self, flow: FlowV) -> LowerV {
        self.with_program(ProgramV { flow: self.p.flow.push(flow), ..self.p })
    }

    /// With one more thing that a function returns.
    pub open spec fn with_returned(self, f: FnId, flow: ReturnV) -> LowerV {
        self.with_program(
            ProgramV { fn_returns: with_return(self.p.fn_returns, f.0, flow, 0), ..self.p },
        )
    }

    /// With one more use of a name to look at later.
    pub open spec fn with_pending(self, p: PendV) -> LowerV {
        LowerV { pending: self.pending.push(p), ..self }
    }

    /// A name behind the names of the namespaces around.
    pub open spec fn qualified(self, name: Seq<char>) -> Seq<char> {
        ns_prefix(self.ns, self.ns.len() as int) + name
    }

    /// Whether a namespace around has no name.
    pub open spec fn in_anonymous(self) -> bool {
        anon_from(self.ns, 0)
    }

    /// The first static variable from `i` on that has the name and can be
    /// seen here.
    pub open spec fn static_var(self, name: Seq<char>, i: int) -> Option<VarId>
        decreases self.p.symbols.variables.len() - i,
    {
        let vars = self.p.symbols.variables;
        if i < 0 || i >= vars.len() {
            None
        } else if vars[i].name == name && (match vars[i].storage {
            StorageClass::FileStatic => vars[i].span.file == self.file,
            StorageClass::FnStatic => vars[i].fn_id == self.current_fn,
            _ => false,
        }) {
            Some(vars[i].id)
        } else {
            self.static_var(name, i + 1)
        }
    }

    /// The variable that a name means here.
    pub open spec fn lookup(self, name: Seq<char>) -> Option<VarId> {
        if self.current_fn is Some && self.locals.contains_key(name) {
            Some(VarId(self.locals[name]))
        } else if self.p.symbols.globals.contains_key(name) {
            Some(VarId(self.p.symbols.globals[name]))
        } else {
            self.static_var(name, 0)
        }
    }

    /// The function that a name means here.
    pub open spec fn named_fn(self, name: Seq<char>) -> Option<FnId> {
        self.p.symbols.resolve_in_scope(name, Some(self.file))
    }

    /// Where a node comes from: a place in the file that it was written in.
    pub open spec fn placed(self, n: NodeV) -> (LowerV, Span) {
        match entry_covering(
            self.lines.entries,
            offset_u32(n.start),
            self.lines.entries.len() as int,
        ) {
            Some(e) => if e.file < self.lines.files.len() {
                let origin = self.lines.files[e.file as int];
                if origin != self.primary {
                    let symbols = self.p.symbols.with_path(origin);
                    (
                        self.with_symbols(symbols),
                        Span { file: symbols.file_of(origin), line: e.line, col: e.col },
                    )
                } else {
                    (self, Span { file: self.file, line: e.line, col: e.col })
                }
            } else {
                (self, self.row_place(n))
            },
            None => (self, self.row_place(n)),
        }
    }

    /// Where a node is in the preprocessed text.
    pub open spec fn row_place(self, n: NodeV) -> Span {
        Span { file: self.file, line: next_number(n.row), col: next_number(n.col) }
    }

    /// The identifier of the next variable.
    pub open spec fn next_var(self) -> VarId {
        VarId(self.p.symbols.next_var)
    }

    /// With a variable that has that identifier.
    pub open spec fn with_var(
        self,
        name: Seq<char>,
        type_id: TypeId,
        storage: StorageClass,
        owner: Option<FnId>,
        param_index: Option<u32>,
        span: Span,
        is_pointer: bool,
    ) -> LowerV {
        let s = self.p.symbols;
        self.with_symbols(
            SymbolsV { next_var: next_number(s.next_var), ..s }.with_variable(
                VarV {
                    id: self.next_var(),
                    name,
                    type_id,
                    storage,
                    fn_id: owner,
                    param_index,
                    span,
                    is_pointer,
                },
            ),
        )
    }

    /// With a variable for a value that has no name in the source.
    pub open spec fn with_temp(self, prefix: Seq<char>, type_id: TypeId, span: Span) -> LowerV {
        self.with_var(
            prefix + decimal_of(self.next_var().0 as nat),
            type_id,
            StorageClass::Local,
            self.current_fn,
            None,
            span,
            true,
        )
    }

    pub open spec fn int_type(self) -> TypeId {
        self.p.types.resolved(DescV::Int)
    }

    /// With a variable for the value of a node.
    pub open spec fn with_value_temp(self, n: NodeV) -> LowerV {
        let (s, span) = self.placed(n);
        s.with_temp("_ret"@, s.int_type(), span)
    }

    /// With a variable for the address of a field.
    pub open spec fn with_field_temp(
        self,
        n: NodeV,
        base: VarId,
        field: FieldId,
        name: Seq<char>,
    ) -> LowerV {
        let (s, span) = self.placed(n);
        s.with_temp("_gep"@, s.int_type(), span).with_flow(
            FlowV::GepField { dst: s.next_var(), base, field, field_name: name },
        )
    }

    /// With a name for a variable, inside a function.
    pub open spec fn with_local(self, name: Seq<char>, v: VarId) -> LowerV {
        if self.current_fn is Some {
            LowerV { locals: self.locals.insert(name, v.0), ..self }
        } else {
            self
        }
    }

    /// Where a variable that is declared here lives.
    pub open spec fn storage(self, is_static: bool) -> StorageClass {
        if self.current_fn is Some {
            if is_static {
                StorageClass::FnStatic
            } else {
                StorageClass::Local
            }
        } else if is_static {
            StorageClass::FileStatic
        } else {
            StorageClass::Global
        }
    }

    /// The structure with a tag.
    pub open spec fn tagged(self, name: Seq<char>) -> Option<TypeId> {
        self.p.types.tagged(name, TypeKind::Struct)
    }

    /// A name as that of a class: without template arguments, and with the
    /// namespaces around where it has none.
    pub open spec fn class_name(self, text: Seq<char>) -> Seq<char> {
        let bare = without_args(normal_name(text));
        if has_text(bare, "::"@) {
            bare
        } else {
            self.qualified(bare)
        }
    }
}

impl Lower {
    pub open spec fn wf(&self) -> bool {
        self.program.wf()
    }

    /// Notes a move of a value.
    pub fn add_flow(&mut self, flow: FlowConstraint)
        requires
            old(self).wf(),
        ensures
            final(self).wf(),
            final(self)@ == old(self)@.with_flow(flow@),
    {
        push_flow(&mut self.program.flow, flow);
    }

    /// Notes that a function returns something.
    pub fn add_return(&mut self, f: FnId, flow: ReturnFlow)
        requires
            old(self).wf(),
        ensures
            final(self).wf(),
            final(self)@ == old(self)@.with_returned(f, flow@),
    {
        self.program.fn_returns.add(f, flow);
    }

    /// Keeps a use of a name for later.
    pub fn add_pending(&mut self, p: PendingFnRef)
        requires
            old(self).wf(),
        ensures
            final(self).wf(),
            final(self)@ == old(self)@.with_pending(p@),
    {
        let ghost before = self.pending@;
        let ghost v = p@;
        self.pending.push(p);
        assert(pends_view(self.pending@) =~= pends_view(before).push(v));
    }

    /// A name behind the names of the namespaces around.
    pub fn qualify(&self, name: &str) -> (r: String)
        ensures
            r@ == self@.qualified(name@),
    {
        let mut out = String::new();
        let mut i: usize = 0;
        assert(out@ =~= Seq::empty());
        while i < self.ns.len()
            invariant
                i <= self.ns@.len(),
                out@ == ns_prefix(self@.ns, i as int),
            decreases self.ns@.len() - i,
        {
            assert(self@.ns[i as int] == opt_view(self.ns@[i as int]));
            if let Some(s) = &self.ns[i] {
                out = cat3(out.as_str(), s.as_str(), "::");
            }
            i = i + 1;
        }
        cat2(out.as_str(), name)
    }

    pub fn in_anonymous_namespace(&self) -> (r: bool)
        ensures
            r == self@.in_anonymous(),
    {
        let mut i: usize = 0;
        while i < self.ns.len()
            invariant
                i <= self.ns@.len(),
                anon_from(self@.ns, i as int) == anon_from(self@.ns, 0),
            decreases self.ns@.len() - i,
        {
            assert(self@.ns[i as int] == opt_view(self.ns@[i as int]));
            if self.ns[i].is_none() {
                return true;
            }
            i = i + 1;
        }
        false
    }

    /// Whether a namespace around has a name.
    pub fn in_namespace(&self, name: &str) -> (r: bool)
        ensures
            r == ns_named(self@.ns, name@, 0),
    {
        let mut i: usize = 0;
        while i < self.ns.len()
            invariant
                i <= self.ns@.len(),
                ns_named(self@.ns, name@, i as int) == ns_named(self@.ns, name@, 0),
            decreases self.ns@.len() - i,
        {
            assert(self@.ns[i as int] == opt_view(self.ns@[i as int]));
            if let Some(s) = &self.ns[i] {
                if str_eq(s.as_str(), name) {
                    return true;
                }
            }
            i = i + 1;
        }
        false
    }

    /// The variable that a name means here.
    pub fn lookup_var(&self, name: &str) -> (r: Option<VarId>)
        ensures
            r == self@.lookup(name@),
    {
        if self.current_fn.is_some() {
            if let Some(v) = fx_name_get(&self.locals, name) {
                return Some(VarId(v));
            }
        }
        if let Some(v) = self.program.symbols.resolve_global(name) {
            return Some(v);
        }
        let n = self.program.symbols.variable_count();
        let mut i: usize = 0;
        while i < n
            invariant
                i <= n == self@.p.symbols.variables.len(),
                self@.static_var(name@, i as int) == self@.static_var(name@, 0),
                self@.lookup(name@) == self@.static_var(name@, 0),
            decreases n - i,
        {
            let v = self.program.symbols.variable_at(i);
            let seen = match v.storage {
                StorageClass::FileStatic => v.span.file == self.file,
                StorageClass::FnStatic => match (v.fn_id, self.current_fn) {
                    (Some(a), Some(b)) => a == b,
                    (None, None) => true,
                    _ => false,
                },
                _ => false,
            };
            if seen && str_eq(v.name.as_str(), name) {
                return Some(v.id);
            }
            i = i + 1;
        }
        None
    }

    /// The function that a name means here.
    pub fn resolve_function_named(&self, name: &str) -> (r: Option<FnId>)
        ensures
            r == self@.named_fn(name@),
    {
        self.program.symbols.resolve_function_in_scope(name, Some(self.file))
    }

    /// Where a node comes from.
    pub fn node_span(&mut self, n: &SyntaxNode) -> (r: Span)
        requires
            old(self).wf(),
        ensures
            final(self).wf(),
            (final(self)@, r) == old(self)@.placed(n@),
    {
        if let Some(e) = self.lines.lookup(to_offset(n.start)) {
            if let Some(origin) = self.lines.path_of(e.file) {
                if str_eq(origin.as_str(), self.primary.as_str()) {
                    return Span { file: self.file, line: e.line, col: e.col };
                }
                let path = origin.clone();
                let file = self.program.symbols.add_file_interned(path.as_str());
                return Span { file, line: e.line, col: e.col };
            }
        }
        Span { file: self.file, line: count_up(n.row), col: count_up(n.col) }
    }

    /// Adds a variable.
    pub fn add_var(
        &mut self,
        name: String,
        type_id: TypeId,
        storage: StorageClass,
        owner: Option<FnId>,
        param_index: Option<u32>,
        span: Span,
        is_pointer: bool,
    ) -> (r: VarId)
        requires
            old(self).wf(),
        ensures
            final(self).wf(),
            final(self)@ == old(self)@.with_var(
                name@,
                type_id,
                storage,
                owner,
                param_index,
                span,
                is_pointer,
            ),
            r == old(self)@.next_var(),
    {
        let id = self.program.symbols.alloc_var_id();
        self.program.symbols.add_variable(
            Variable { id, name, type_id, storage, fn_id: owner, param_index, span, is_pointer },
        )
    }

    /// Adds a variable for a value that has no name in the source.
    pub fn add_temp(&mut self, prefix: &str, type_id: TypeId, span: Span) -> (r: VarId)
        requires
            old(self).wf(),
        ensures
            final(self).wf(),
            final(self)@ == old(self)@.with_temp(prefix@, type_id, span),
            r == old(self)@.next_var(),
    {
        let id = self.program.symbols.alloc_var_id();
        let digits = decimal(id.0 as u64);
        let name = cat2(prefix, digits.as_str());
        self.program.symbols.add_variable(
            Variable {
                id,
                name,
                type_id,
                storage: StorageClass::Local,
                fn_id: self.current_fn,
                param_index: None,
                span,
                is_pointer: true,
            },
        )
    }

    pub fn type_int(&self) -> (r: TypeId)
        ensures
            r == self@.int_type(),
    {
        self.program.types.resolve_type_id(&TypeDesc::Int)
    }

    /// Adds a variable for the value of a node.
    pub fn alloc_ret_temp(&mut self, n: &SyntaxNode) -> (r: VarId)
        requires
            old(self).wf(),
        ensures
            final(self).wf(),
            final(self)@ == old(self)@.with_value_temp(n@),
            r == old(self)@.next_var(),
    {
        let span = self.node_span(n);
        let type_id = self.type_int();
        self.add_temp("_ret", type_id, span)
    }

    /// Adds a variable for the address of a field.
    pub fn alloc_gep_temp(
        &mut self,
        n: &SyntaxNode,
        base: VarId,
        field: FieldId,
        field_name: String,
    ) -> (r: VarId)
        requires
            old(self).wf(),
        ensures
            final(self).wf(),
            final(self)@ == old(self)@.with_field_temp(n@, base, field, field_name@),
            r == old(self)@.next_var(),
    {
        let span = self.node_span(n);
        let type_id = self.type_int();
        let dst = self.add_temp("_gep", type_id, span);
        self.add_flow(FlowConstraint::GepField { dst, base, field, field_name });
        dst
    }

    /// Gives a variable its name, inside a function.
    pub fn register_local(&mut self, name: String, v: VarId)
        requires
            old(self).wf(),
        ensures
            final(self).wf(),
            final(self)@ == old(self)@.with_local(name@, v),
    {
        if self.current_fn.is_some() {
            fx_name_insert(&mut self.locals, name, v.0);
        }
    }

    /// Where a variable that is declared here lives.
    pub fn storage_for(&self, is_static: bool) -> (r: StorageClass)
        ensures
            r == self@.storage(is_static),
    {
        if self.current_fn.is_some() {
            if is_static {
                StorageClass::FnStatic
            } else {
                StorageClass::Local
            }
        } else if is_static {
            StorageClass::FileStatic
        } else {
            StorageClass::Global
        }
    }

    /// A name as that of a class.
    pub fn name_of_class(&self, text: &str) -> (r: String)
        ensures
            r@ == self@.class_name(text@),
    {
        let raw = normalize_qualified(text);
        let bare = strip_template_args(raw.as_str());
        if contains_text(bare.as_str(), "::") {
            bare
        } else {
            self.qualify(bare.as_str())
        }
    }

    /// Adds a type.
    pub fn intern(&mut self, desc: TypeDesc) -> (r: TypeId)
        requires
            old(self).wf(),
        ensures
            final(self).wf(),
            final(self)@ == old(self)@.with_types(old(self)@.p.types.interned(desc@)),
            r == old(self)@.p.types.interned(desc@).id_of(desc@),
    {
        self.program.types.intern(desc)
    }
}

} // verus!
