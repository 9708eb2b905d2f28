//! The functions, variables, call sites and files of a program.

use crate::collections::{
    fx_get, fx_insert, fx_list_get, fx_list_insert, fx_list_map, fx_lists, fx_map, fx_name_get,
    fx_name_insert, fx_name_map, fx_names, fx_remove, index_name_get, index_name_insert,
    index_name_map, index_names,
};
use crate::ir::ids::{CallSiteId, FileId, FnId, Span, TypeId, VarId};
use crate::paths::{tidied, tidy};
use crate::text::{owned, str_eq};
use indexmap::IndexMap;
use rustc_hash::FxHashMap;
use std::hash::RandomState;
use vstd::prelude::*;

verus! {

broadcast use crate::text::take_push;

/// Who can see a function.
#[derive(Debug, Clone, Copy, PartialEq, Eq, Hash, Structural)]
pub enum Linkage {
    External,
    Internal,
    Nowhere,
}

/// Where a variable lives.
#[derive(Debug, Clone, Copy, PartialEq, Eq, Hash, Structural)]
pub enum StorageClass {
    Global,
    FileStatic,
    FnStatic,
    Param,
    Local,
}

#[derive(Debug)]
pub struct Variable {
    pub id: VarId,
    pub name: String,
    pub type_id: TypeId,
    pub storage: StorageClass,
    pub fn_id: Option<FnId>,
    pub param_index: Option<u32>,
    pub span: Span,
    pub is_pointer: bool,
}

/// The mathematical form of a [`Variable`].
pub struct VarV {
    pub id: VarId,
    pub name: Seq<char>,
    pub type_id: TypeId,
    pub storage: StorageClass,
    pub fn_id: Option<FnId>,
    pub param_index: Option<u32>,
    pub span: Span,
    pub is_pointer: bool,
}

impl View for Variable {
    type V = VarV;

    open spec fn view(&self) -> VarV {
        VarV {
            id: self.id,
            name: self.name@,
            type_id: self.type_id,
            storage: self.storage,
            fn_id: self.fn_id,
            param_index: self.param_index,
            span: self.span,
            is_pointer: self.is_pointer,
        }
    }
}

#[derive(Debug)]
pub struct Function {
    pub id: FnId,
    pub name: String,
    pub linkage: Linkage,
    pub return_type: TypeId,
    pub params: Vec<VarId>,
    pub locals: Vec<VarId>,
    pub span: Span,
    pub file: FileId,
    pub is_defined: bool,
    /// Declared `virtual`. A method takes part in dynamic dispatch if any
    /// entry with its qualified name is.
    pub is_virtual: bool,
    /// May stand beside others of its name that have other parameters.
    pub is_cpp: bool,
}

/// The mathematical form of a [`Function`].
#[verifier::ext_equal]
pub struct FnV {
    pub id: FnId,
    pub name: Seq<char>,
    pub linkage: Linkage,
    pub return_type: TypeId,
    pub params: Seq<VarId>,
    pub locals: Seq<VarId>,
    pub span: Span,
    pub file: FileId,
    pub is_defined: bool,
    pub is_virtual: bool,
    pub is_cpp: bool,
}

impl View for Function {
    type V = FnV;

    open spec fn view(&self) -> FnV {
        FnV {
            id: self.id,
            name: self.name@,
            linkage: self.linkage,
            return_type: self.return_type,
            params: self.params@,
            locals: self.locals@,
            span: self.span,
            file: self.file,
            is_defined: self.is_defined,
            is_virtual: self.is_virtual,
            is_cpp: self.is_cpp,
        }
    }
}

#[derive(Debug)]
pub struct CallSite {
    pub id: CallSiteId,
    pub caller: FnId,
    pub callee_name: String,
    pub callee_var: Option<VarId>,
    /// The function that is called, where lowering could tell.
    pub callee_fn_id: Option<FnId>,
    pub var_args: Vec<(u32, VarId)>,
    pub fn_args: Vec<(u32, FnId)>,
    /// The arguments of the form `&base.member`, in order.
    pub addr_of_member_args: Vec<u32>,
    pub span: Span,
    pub is_direct: bool,
    /// The class of the object that a method is called on.
    pub receiver_class: Option<String>,
    /// The variable that takes what the call returns.
    pub return_dst: Option<VarId>,
}

/// The mathematical form of a [`CallSite`].
#[verifier::ext_equal]
pub struct SiteV {
    pub id: CallSiteId,
    pub caller: FnId,
    pub callee_name: Seq<char>,
    pub callee_var: Option<VarId>,
    pub callee_fn_id: Option<FnId>,
    pub var_args: Seq<(u32, VarId)>,
    pub fn_args: Seq<(u32, FnId)>,
    pub addr_of_member_args: Seq<u32>,
    pub span: Span,
    pub is_direct: bool,
    pub receiver_class: Option<Seq<char>>,
    pub return_dst: Option<VarId>,
}

impl View for CallSite {
    type V = SiteV;

    open spec fn view(&self) -> SiteV {
        SiteV {
            id: self.id,
            caller: self.caller,
            callee_name: self.callee_name@,
            callee_var: self.callee_var,
            callee_fn_id: self.callee_fn_id,
            var_args: self.var_args@,
            fn_args: self.fn_args@,
            addr_of_member_args: self.addr_of_member_args@,
            span: self.span,
            is_direct: self.is_direct,
            receiver_class: match self.receiver_class {
                Some(c) => Some(c@),
                None => None,
            },
            return_dst: self.return_dst,
        }
    }
}

#[derive(Debug)]
pub struct FileInfo {
    pub id: FileId,
    pub path: String,
}

pub open spec fn files_view(s: Seq<FileInfo>) -> Seq<(FileId, Seq<char>)> {
    Seq::new(s.len(), |i: int| (s[i].id, s[i].path@))
}

pub open spec fn fns_view(s: Seq<Function>) -> Seq<FnV> {
    Seq::new(s.len(), |i: int| s[i]@)
}

pub open spec fn vars_view(s: Seq<Variable>) -> Seq<VarV> {
    Seq::new(s.len(), |i: int| s[i]@)
}

pub open spec fn sites_view(s: Seq<CallSite>) -> Seq<SiteV> {
    Seq::new(s.len(), |i: int| s[i]@)
}

/// The symbols of a program.
#[verifier::ext_equal]
pub struct SymbolsV {
    pub files: Seq<(FileId, Seq<char>)>,
    pub functions: Seq<FnV>,
    pub variables: Seq<VarV>,
    pub call_sites: Seq<SiteV>,
    /// One external function per name.
    pub fn_by_name: Map<Seq<char>, u32>,
    /// All external functions per name, in order.
    pub externals: Map<Seq<char>, Seq<FnId>>,
    pub globals: Map<Seq<char>, u32>,
    /// Functions that only their file can see, per file and name.
    pub scopes: Map<u32, Map<Seq<char>, u32>>,
    /// The headers that contribute to a file, in ascending order.
    pub headers: Map<u32, Seq<FileId>>,
    /// The files of paths, by what paths that name the same parts have in
    /// common.
    pub paths: Map<Seq<char>, u32>,
    pub next_fn: u32,
    pub next_var: u32,
    pub next_call: u32,
}

/// No symbols at all.
pub open spec fn no_symbols() -> SymbolsV {
    SymbolsV {
        files: Seq::empty(),
        functions: Seq::empty(),
        variables: Seq::empty(),
        call_sites: Seq::empty(),
        fn_by_name: Map::empty(),
        externals: Map::empty(),
        globals: Map::empty(),
        scopes: Map::empty(),
        headers: Map::empty(),
        paths: Map::empty(),
        next_fn: 0,
        next_var: 0,
        next_call: 0,
    }
}

/// The position of the first function from `i` on that has the identifier;
/// the length if there is none.
pub open spec fn fn_position(fns: Seq<FnV>, id: FnId, i: int) -> int
    decreases fns.len() - i,
{
    if i < 0 || i >= fns.len() || fns[i].id == id {
        i
    } else {
        fn_position(fns, id, i + 1)
    }
}

/// A position that is found is that of a function with the identifier.
pub proof fn position_found(fns: Seq<FnV>, id: FnId, i: int)
    requires
        0 <= i <= fns.len(),
    ensures
        i <= fn_position(fns, id, i) <= fns.len(),
        fn_position(fns, id, i) < fns.len() ==> fns[fn_position(fns, id, i)].id == id,
    decreases fns.len() - i,
{
    if i < fns.len() && fns[i].id != id {
        position_found(fns, id, i + 1);
    }
}

/// The type of the first variable from `i` on that has the identifier.
pub open spec fn var_type(vars: Seq<VarV>, id: VarId, i: int) -> Option<TypeId>
    decreases vars.len() - i,
{
    if i < 0 || i >= vars.len() {
        None
    } else if vars[i].id == id {
        Some(vars[i].type_id)
    } else {
        var_type(vars, id, i + 1)
    }
}

/// The first call site from `i` on that has the identifier.
pub open spec fn site_position(sites: Seq<SiteV>, id: CallSiteId, i: int) -> int
    decreases sites.len() - i,
{
    if i < 0 || i >= sites.len() || sites[i].id == id {
        i
    } else {
        site_position(sites, id, i + 1)
    }
}

/// `ids` with `id` at the end, unless it is there already.
pub open spec fn with_fn(ids: Seq<FnId>, id: FnId) -> Seq<FnId> {
    if ids.contains(id) {
        ids
    } else {
        ids.push(id)
    }
}

/// `ids` followed by those of `more` that it does not hold yet.
pub open spec fn with_fns(ids: Seq<FnId>, more: Seq<FnId>) -> Seq<FnId>
    decreases more.len(),
{
    if more.len() == 0 {
        ids
    } else {
        with_fn(with_fns(ids, more.drop_last()), more.last())
    }
}

/// An ascending list with a file in its place.
pub open spec fn with_file(files: Seq<FileId>, f: FileId, i: int) -> Seq<FileId>
    decreases files.len() - i,
{
    if i < 0 || i >= files.len() {
        files.push(f)
    } else if files[i].0 == f.0 {
        files
    } else if files[i].0 > f.0 {
        files.insert(i, f)
    } else {
        with_file(files, f, i + 1)
    }
}

/// A function that another declaration of it has been merged into.
pub open spec fn merged(existing: FnV, func: FnV) -> FnV {
    let base = if func.is_defined {
        FnV {
            is_defined: true,
            file: func.file,
            span: func.span,
            params: if func.params.len() > 0 {
                func.params
            } else {
                existing.params
            },
            ..existing
        }
    } else if existing.params.len() == 0 && func.params.len() > 0 {
        FnV { params: func.params, ..existing }
    } else {
        existing
    };
    if func.is_virtual {
        FnV { is_virtual: true, ..base }
    } else {
        base
    }
}

impl SymbolsV {
    /// The function with an identifier.
    pub open spec fn function(self, id: FnId) -> Option<FnV> {
        let k = fn_position(self.functions, id, 0);
        if k < self.functions.len() {
            Some(self.functions[k])
        } else {
            None
        }
    }

    /// The variable with an identifier: the one at its position.
    pub open spec fn variable(self, id: VarId) -> Option<VarV> {
        if id.0 < self.variables.len() && self.variables[id.0 as int].id == id {
            Some(self.variables[id.0 as int])
        } else {
            None
        }
    }

    pub open spec fn call_site(self, id: CallSiteId) -> Option<SiteV> {
        let k = site_position(self.call_sites, id, 0);
        if k < self.call_sites.len() {
            Some(self.call_sites[k])
        } else {
            None
        }
    }

    pub open spec fn param_type(self, id: VarId) -> Option<TypeId> {
        var_type(self.variables, id, 0)
    }

    /// Whether two functions of one name are declarations of one function:
    /// in C always; in C++ if their parameters agree, or are not given.
    pub open spec fn same_function(self, existing: FnV, func: FnV) -> bool {
        ||| !(func.is_cpp || existing.is_cpp)
        ||| existing.params.len() == 0
        ||| func.params.len() == 0
        ||| existing.params.len() == func.params.len() && forall|i: int|
            0 <= i < func.params.len() ==> #[trigger] self.param_type(existing.params[i])
                == self.param_type(func.params[i])
    }

    /// The external functions of a name.
    pub open spec fn external(self, name: Seq<char>) -> Seq<FnId> {
        if self.externals.contains_key(name) {
            self.externals[name]
        } else {
            Seq::empty()
        }
    }

    /// The first of the functions from `i` on that is declared once more.
    pub open spec fn agreeing(self, ids: Seq<FnId>, func: FnV, i: int) -> Option<FnId>
        decreases ids.len() - i,
    {
        if i < 0 || i >= ids.len() {
            None
        } else if self.is_declared_by(ids[i], func) {
            Some(ids[i])
        } else {
            self.agreeing(ids, func, i + 1)
        }
    }

    /// Whether a function with the identifier is there, and a declaration is
    /// one of that function.
    pub open spec fn is_declared_by(self, id: FnId, func: FnV) -> bool {
        let k = fn_position(self.functions, id, 0);
        k < self.functions.len() && self.same_function(self.functions[k], func)
    }

    /// The external function that a declaration is one more declaration of:
    /// the one that its name means, or else the first of the others.
    pub open spec fn declared(self, func: FnV) -> Option<FnId> {
        if func.linkage != Linkage::External || !self.fn_by_name.contains_key(func.name) {
            None
        } else if self.is_declared_by(FnId(self.fn_by_name[func.name]), func) {
            Some(FnId(self.fn_by_name[func.name]))
        } else {
            self.agreeing(self.external(func.name), func, 0)
        }
    }

    /// With a function, and the identifier that it goes by: a declaration of
    /// an external function that is known is merged into it.
    pub open spec fn with_function(self, func: FnV) -> (SymbolsV, FnId) {
        match self.declared(func) {
            Some(id) => {
                let k = fn_position(self.functions, id, 0);
                (
                    SymbolsV {
                        functions: self.functions.update(k, merged(self.functions[k], func)),
                        externals: self.externals.insert(
                            func.name,
                            with_fn(self.external(func.name), id),
                        ),
                        ..self
                    },
                    id,
                )
            },
            None => (self.with_new_function(func), func.id),
        }
    }

    /// With a function beside all others.
    pub open spec fn with_new_function(self, func: FnV) -> SymbolsV {
        SymbolsV {
            functions: self.functions.push(func),
            fn_by_name: if func.linkage == Linkage::External {
                self.fn_by_name.insert(func.name, func.id.0)
            } else {
                self.fn_by_name
            },
            externals: if func.linkage == Linkage::External {
                self.externals.insert(func.name, self.external(func.name).push(func.id))
            } else {
                self.externals
            },
            scopes: if func.linkage == Linkage::Internal {
                self.scopes.insert(
                    func.file.0,
                    self.scope(func.file).insert(func.name, func.id.0),
                )
            } else {
                self.scopes
            },
            ..self
        }
    }

    /// What only a file can see.
    pub open spec fn scope(self, file: FileId) -> Map<Seq<char>, u32> {
        if self.scopes.contains_key(file.0) {
            self.scopes[file.0]
        } else {
            Map::empty()
        }
    }

    /// The headers that contribute to a file.
    pub open spec fn headers_of(self, file: FileId) -> Seq<FileId> {
        if self.headers.contains_key(file.0) {
            self.headers[file.0]
        } else {
            Seq::empty()
        }
    }

    /// The function that only `file` can see, if it has one of that name.
    pub open spec fn in_file(self, name: Seq<char>, file: FileId) -> Option<FnId> {
        if self.scope(file).contains_key(name) {
            Some(FnId(self.scope(file)[name]))
        } else {
            None
        }
    }

    /// The first of the headers from `i` on that has a function of the name.
    pub open spec fn in_headers(self, name: Seq<char>, headers: Seq<FileId>, i: int) -> Option<FnId>
        decreases headers.len() - i,
    {
        if i < 0 || i >= headers.len() {
            None
        } else {
            match self.in_file(name, headers[i]) {
                Some(id) => Some(id),
                None => self.in_headers(name, headers, i + 1),
            }
        }
    }

    pub open spec fn resolve(self, name: Seq<char>) -> Option<FnId> {
        if self.fn_by_name.contains_key(name) {
            Some(FnId(self.fn_by_name[name]))
        } else {
            None
        }
    }

    /// What a name means in a file: what only the file can see comes before
    /// what its headers define, and that before what is external.
    pub open spec fn resolve_in_scope(self, name: Seq<char>, file: Option<FileId>) -> Option<FnId> {
        match file {
            Some(f) => match self.in_file(name, f) {
                Some(id) => Some(id),
                None => match self.in_headers(name, self.headers_of(f), 0) {
                    Some(id) => Some(id),
                    None => self.resolve(name),
                },
            },
            None => self.resolve(name),
        }
    }

    /// `out` with the functions of the name that the first `n` headers have.
    pub open spec fn header_candidates(
        self,
        out: Seq<FnId>,
        name: Seq<char>,
        headers: Seq<FileId>,
        n: int,
    ) -> Seq<FnId>
        decreases n,
    {
        if n <= 0 {
            out
        } else {
            let before = self.header_candidates(out, name, headers, n - 1);
            match self.in_file(name, headers[n - 1]) {
                Some(id) => with_fn(before, id),
                None => before,
            }
        }
    }

    /// Every function that a name may mean where it is not known who asks.
    pub open spec fn candidates(self, name: Seq<char>, file: Option<FileId>) -> Seq<FnId> {
        let scoped = match file {
            Some(f) => {
                let own = match self.in_file(name, f) {
                    Some(id) => seq![id],
                    None => Seq::empty(),
                };
                self.header_candidates(own, name, self.headers_of(f), self.headers_of(f).len() as int)
            },
            None => Seq::empty(),
        };
        let named = match self.resolve(name) {
            Some(id) => with_fn(scoped, id),
            None => scoped,
        };
        with_fns(named, self.external(name))
    }

    pub open spec fn with_variable(self, var: VarV) -> SymbolsV {
        SymbolsV {
            variables: self.variables.push(var),
            globals: if var.storage == StorageClass::Global {
                self.globals.insert(var.name, var.id.0)
            } else {
                self.globals
            },
            ..self
        }
    }

    pub open spec fn with_file(self, path: Seq<char>) -> SymbolsV {
        SymbolsV { files: self.files.push((FileId(self.files.len() as u32), path)), ..self }
    }

    /// Whether a path that names the same parts has a file.
    pub open spec fn knows_path(self, path: Seq<char>) -> bool {
        self.paths.contains_key(tidied(path))
    }

    /// The file of a path.
    pub open spec fn file_of(self, path: Seq<char>) -> FileId {
        FileId(self.paths[tidied(path)])
    }

    /// With a file, unless its path is known.
    pub open spec fn with_path(self, path: Seq<char>) -> SymbolsV {
        if self.knows_path(path) {
            self
        } else {
            SymbolsV {
                paths: self.paths.insert(tidied(path), self.files.len() as u32),
                ..self.with_file(path)
            }
        }
    }

    /// With a function that no name leads to.
    pub open spec fn with_unlisted(self, f: FnV) -> SymbolsV {
        SymbolsV { functions: self.functions.push(f), ..self }
    }

    /// With the calls by a name that lead nowhere made calls of a function.
    pub open spec fn resolved_to(self, name: Seq<char>, f: FnId) -> SymbolsV {
        SymbolsV {
            call_sites: Seq::new(
                self.call_sites.len(),
                |i: int| bound_to(self.call_sites[i], name, f),
            ),
            ..self
        }
    }

    /// The variables of one function, among the first `n`.
    pub open spec fn vars_of(self, f: FnId, n: int) -> Seq<VarId>
        decreases n,
    {
        if n <= 0 {
            Seq::empty()
        } else if self.variables[n - 1].fn_id == Some(f) {
            self.vars_of(f, n - 1).push(self.variables[n - 1].id)
        } else {
            self.vars_of(f, n - 1)
        }
    }

    /// With all that belongs to one function moved to another. Its variables
    /// become the other's parameters.
    pub open spec fn reassigned(self, from: FnId, to: FnId) -> SymbolsV {
        if from == to {
            self
        } else {
            let moved = self.vars_of(from, self.variables.len() as int);
            let k = fn_position(self.functions, to, 0);
            SymbolsV {
                variables: Seq::new(
                    self.variables.len(),
                    |i: int| owned_by(self.variables[i], from, to),
                ),
                call_sites: Seq::new(
                    self.call_sites.len(),
                    |i: int| called_by(self.call_sites[i], from, to),
                ),
                functions: if moved.len() > 0 && k < self.functions.len() {
                    self.functions.update(k, FnV { params: moved, ..self.functions[k] })
                } else {
                    self.functions
                },
                ..self
            }
        }
    }

    pub open spec fn with_header(self, tu: FileId, header: FileId) -> SymbolsV {
        if tu == header {
            self
        } else {
            SymbolsV {
                headers: self.headers.insert(tu.0, with_file(self.headers_of(tu), header, 0)),
                ..self
            }
        }
    }
}

/// A variable once what is one function's has become another's.
pub open spec fn owned_by(v: VarV, from: FnId, to: FnId) -> VarV {
    if v.fn_id == Some(from) {
        VarV { fn_id: Some(to), ..v }
    } else {
        v
    }
}

/// A call by a name that leads nowhere, made a call of a function.
pub open spec fn bound_to(s: SiteV, name: Seq<char>, f: FnId) -> SiteV {
    if !s.is_direct && s.callee_var is None && s.callee_name == name {
        SiteV { is_direct: true, callee_fn_id: Some(f), ..s }
    } else {
        s
    }
}

/// A call once what is one function's has become another's.
pub open spec fn called_by(s: SiteV, from: FnId, to: FnId) -> SiteV {
    if s.caller == from {
        SiteV { caller: to, ..s }
    } else {
        s
    }
}

/// The symbols of a program.
pub struct SymbolTable {
    pub files: Vec<FileInfo>,
    pub functions: Vec<Function>,
    pub variables: Vec<Variable>,
    pub call_sites: Vec<CallSite>,
    fn_by_name: IndexMap<String, u32, RandomState>,
    externals_by_name: FxHashMap<String, Vec<u32>>,
    global_by_name: IndexMap<String, u32, RandomState>,
    fn_by_scope: FxHashMap<u32, FxHashMap<String, u32>>,
    headers_of: FxHashMap<u32, Vec<FileId>>,
    file_by_path: FxHashMap<String, u32>,
    next_fn: u32,
    next_var: u32,
    next_call: u32,
}

impl View for SymbolTable {
    type V = SymbolsV;

    closed spec fn view(&self) -> SymbolsV {
        SymbolsV {
            files: files_view(self.files@),
            functions: fns_view(self.functions@),
            variables: vars_view(self.variables@),
            call_sites: sites_view(self.call_sites@),
            fn_by_name: index_names(self.fn_by_name),
            externals: fx_lists(self.externals_by_name).map_values(|s: Seq<u32>| fn_ids(s)),
            globals: index_names(self.global_by_name),
            scopes: self.fn_by_scope@.map_values(|m: FxHashMap<String, u32>| fx_names(m)),
            headers: self.headers_of@.map_values(|v: Vec<FileId>| v@),
            paths: fx_names(self.file_by_path),
            next_fn: self.next_fn,
            next_var: self.next_var,
            next_call: self.next_call,
        }
    }
}

/// The number after another. The last number is its own successor.
pub open spec fn next_number(n: u32) -> u32 {
    if n == u32::MAX {
        n
    } else {
        (n + 1) as u32
    }
}

/// The number after another. The last number is its own successor.
pub fn count_up(n: u32) -> (r: u32)
    ensures
        r == next_number(n),
{
    if n == u32::MAX {
        n
    } else {
        n + 1
    }
}

/// Numbers as identifiers of functions.
pub open spec fn fn_ids(s: Seq<u32>) -> Seq<FnId> {
    Seq::new(s.len(), |i: int| FnId(s[i]))
}

pub fn clone_var_ids(ids: &Vec<VarId>) -> (r: Vec<VarId>)
    ensures
        r@ == ids@,
{
    let mut out: Vec<VarId> = Vec::new();
    let mut i: usize = 0;
    while i < ids.len()
        invariant
            i <= ids@.len(),
            out@ == ids@.take(i as int),
        decreases ids@.len() - i,
    {
        out.push(ids[i]);
        i = i + 1;
    }
    assert(out@ =~= ids@);
    out
}

/// Adds an identifier that is not there yet.
pub fn add_fn_id(ids: &mut Vec<FnId>, id: FnId)
    ensures
        final(ids)@ == with_fn(old(ids)@, id),
{
    let mut i: usize = 0;
    while i < ids.len()
        invariant
            i <= ids@.len(),
            ids@ == old(ids)@,
            forall|j: int| 0 <= j < i ==> ids@[j] != id,
        decreases ids@.len() - i,
    {
        if ids[i] == id {
            assert(ids@[i as int] == id);
            return ;
        }
        i = i + 1;
    }
    ids.push(id);
}

/// Adds those of `more` that are not there yet, in order.
pub fn add_fn_ids(ids: &mut Vec<FnId>, more: &Vec<FnId>)
    ensures
        final(ids)@ == with_fns(old(ids)@, more@),
{
    let ghost start = ids@;
    let mut i: usize = 0;
    assert(more@.take(0) =~= Seq::<FnId>::empty());
    while i < more.len()
        invariant
            i <= more@.len(),
            ids@ == with_fns(start, more@.take(i as int)),
        decreases more@.len() - i,
    {
        add_fn_id(ids, more[i]);
        assert(more@.take(i + 1).drop_last() =~= more@.take(i as int));
        i = i + 1;
    }
    assert(more@.take(i as int) =~= more@);
}

impl SymbolTable {
    pub fn new() -> (r: SymbolTable)
        ensures
            r@ == no_symbols(),
    {
        let r = SymbolTable {
            files: Vec::new(),
            functions: Vec::new(),
            variables: Vec::new(),
            call_sites: Vec::new(),
            fn_by_name: index_name_map(),
            externals_by_name: fx_list_map(),
            global_by_name: index_name_map(),
            fn_by_scope: fx_map(),
            headers_of: fx_map(),
            file_by_path: fx_name_map(),
            next_fn: 0,
            next_var: 0,
            next_call: 0,
        };
        assert(r@.files =~= Seq::empty());
        assert(r@.functions =~= Seq::empty());
        assert(r@.variables =~= Seq::empty());
        assert(r@.call_sites =~= Seq::empty());
        assert(r@.externals =~= Map::empty());
        assert(r@.scopes =~= Map::empty());
        assert(r@.headers =~= Map::empty());
        r
    }

    pub fn add_file(&mut self, path: String) -> (r: FileId)
        ensures
            final(self)@ == old(self)@.with_file(path@),
            r == FileId(old(self)@.files.len() as u32),
    {
        let id = FileId(self.files.len() as u32);
        let ghost before = self.files@;
        let ghost p = path@;
        self.files.push(FileInfo { id, path });
        assert(files_view(self.files@) =~= files_view(before).push((id, p)));
        id
    }

    /// The identifier of a path, which is added if it is new.
    pub fn add_file_interned(&mut self, path: &str) -> (r: FileId)
        ensures
            final(self)@ == old(self)@.with_path(path@),
            r == final(self)@.file_of(path@),
    {
        let key = tidy(path);
        match fx_name_get(&self.file_by_path, key.as_str()) {
            Some(id) => FileId(id),
            None => {
                let id = self.add_file(owned(path));
                fx_name_insert(&mut self.file_by_path, key, id.0);
                id
            },
        }
    }

    pub fn file_by_path(&self, path: &str) -> (r: Option<FileId>)
        ensures
            match r {
                Some(id) => self@.knows_path(path@) && id == self@.file_of(path@),
                None => !self@.knows_path(path@),
            },
    {
        let key = tidy(path);
        match fx_name_get(&self.file_by_path, key.as_str()) {
            Some(id) => Some(FileId(id)),
            None => None,
        }
    }

    /// Notes that a header contributes to a file.
    pub fn register_included_header(&mut self, tu: FileId, header: FileId)
        ensures
            final(self)@ == old(self)@.with_header(tu, header),
    {
        if tu == header {
            return ;
        }
        let ghost known = self@.headers_of(tu);
        let mut list = match fx_remove(&mut self.headers_of, tu.0) {
            Some(v) => v,
            None => Vec::new(),
        };
        assert(list@ =~= known);
        let mut i: usize = 0;
        let mut found = false;
        while i < list.len() && list[i].0 < header.0
            invariant
                i <= list@.len(),
                with_file(list@, header, i as int) == with_file(list@, header, 0),
            decreases list@.len() - i,
        {
            i = i + 1;
        }
        if i == list.len() {
            list.push(header);
        } else if list[i].0 != header.0 {
            list.insert(i, header);
        }
        assert(list@ == with_file(known, header, 0));
        fx_insert(&mut self.headers_of, tu.0, list);
        assert(self@.headers =~= old(self)@.headers.insert(tu.0, list@));
    }

    /// The headers that contribute to a file.
    pub fn included_headers(&self, tu: FileId) -> (r: Option<&Vec<FileId>>)
        ensures
            match r {
                Some(v) => self@.headers.contains_key(tu.0) && v@ == self@.headers[tu.0],
                None => !self@.headers.contains_key(tu.0),
            },
    {
        fx_get(&self.headers_of, tu.0)
    }

    fn position(&self, id: FnId) -> (r: usize)
        ensures
            r == fn_position(self@.functions, id, 0),
            r <= self.functions@.len(),
    {
        let mut i: usize = 0;
        while i < self.functions.len()
            invariant
                i <= self.functions@.len(),
                fn_position(self@.functions, id, i as int) == fn_position(self@.functions, id, 0),
            decreases self.functions@.len() - i,
        {
            assert(self@.functions[i as int] == self.functions@[i as int]@);
            if self.functions[i].id == id {
                return i;
            }
            i = i + 1;
        }
        i
    }

    fn param_type(&self, var: VarId) -> (r: Option<TypeId>)
        ensures
            r == self@.param_type(var),
    {
        let mut i: usize = 0;
        while i < self.variables.len()
            invariant
                i <= self.variables@.len(),
                var_type(self@.variables, var, i as int) == var_type(self@.variables, var, 0),
            decreases self.variables@.len() - i,
        {
            assert(self@.variables[i as int] == self.variables@[i as int]@);
            if self.variables[i].id == var {
                return Some(self.variables[i].type_id);
            }
            i = i + 1;
        }
        None
    }

    fn same_function(&self, existing: &Function, func: &Function) -> (r: bool)
        ensures
            r == self@.same_function(existing@, func@),
    {
        if !(func.is_cpp || existing.is_cpp) || existing.params.len() == 0 || func.params.len()
            == 0 {
            return true;
        }
        if existing.params.len() != func.params.len() {
            return false;
        }
        let mut i: usize = 0;
        while i < func.params.len()
            invariant
                func.is_cpp || existing.is_cpp,
                func.params@.len() > 0,
                i <= func.params@.len() == existing.params@.len(),
                forall|j: int|
                    0 <= j < i ==> #[trigger] self@.param_type(existing.params@[j])
                        == self@.param_type(func.params@[j]),
            decreases func.params@.len() - i,
        {
            let a = self.param_type(existing.params[i]);
            let b = self.param_type(func.params[i]);
            let same = match (a, b) {
                (Some(x), Some(y)) => x == y,
                (None, None) => true,
                _ => false,
            };
            if !same {
                assert(self@.param_type(existing@.params[i as int]) != self@.param_type(
                    func@.params[i as int],
                ));
                return false;
            }
            i = i + 1;
        }
        true
    }

    /// Gives a name a list of external functions.
    fn set_external(&mut self, name: &str, ids: &Vec<FnId>)
        ensures
            final(self)@ == (SymbolsV {
                externals: old(self)@.externals.insert(name@, ids@),
                ..old(self)@
            }),
    {
        let mut list: Vec<u32> = Vec::new();
        let mut i: usize = 0;
        while i < ids.len()
            invariant
                i <= ids@.len(),
                fn_ids(list@) == ids@.take(i as int),
            decreases ids@.len() - i,
        {
            let ghost before = list@;
            list.push(ids[i].0);
            assert(fn_ids(list@) =~= fn_ids(before).push(ids@[i as int]));
            i = i + 1;
        }
        assert(ids@.take(i as int) =~= ids@);
        fx_list_insert(&mut self.externals_by_name, owned(name), list);
        assert(self@.externals =~= old(self)@.externals.insert(name@, ids@));
    }

    /// Every external function of a name, in order.
    pub fn functions_named(&self, name: &str) -> (r: Vec<FnId>)
        ensures
            r@ == self@.external(name@),
    {
        let mut out: Vec<FnId> = Vec::new();
        if let Some(list) = fx_list_get(&self.externals_by_name, name) {
            assert(self@.external(name@) == fn_ids(list@));
            let mut i: usize = 0;
            while i < list.len()
                invariant
                    i <= list@.len(),
                    out@ == fn_ids(list@).take(i as int),
                decreases list@.len() - i,
            {
                out.push(FnId(list[i]));
                i = i + 1;
            }
            assert(fn_ids(list@).take(i as int) =~= fn_ids(list@));
        } else {
            assert(out@ =~= Seq::<FnId>::empty());
        }
        out
    }

    fn declares(&self, id: FnId, func: &Function) -> (r: bool)
        ensures
            r == self@.is_declared_by(id, func@),
    {
        let k = self.position(id);
        k < self.functions.len() && self.same_function(&self.functions[k], func)
    }

    fn find_declared(&self, func: &Function) -> (r: Option<FnId>)
        ensures
            r == self@.declared(func@),
    {
        if func.linkage != Linkage::External {
            return None;
        }
        let named = match index_name_get(&self.fn_by_name, func.name.as_str()) {
            Some(id) => FnId(id),
            None => {
                return None;
            },
        };
        if self.declares(named, func) {
            return Some(named);
        }
        let ids = self.functions_named(func.name.as_str());
        let mut i: usize = 0;
        while i < ids.len()
            invariant
                i <= ids@.len(),
                self@.declared(func@) == self@.agreeing(ids@, func@, i as int),
            decreases ids@.len() - i,
        {
            if self.declares(ids[i], func) {
                return Some(ids[i]);
            }
            i = i + 1;
        }
        None
    }

    /// Adds a function, or merges a declaration into the one that is known.
    pub fn add_function(&mut self, func: Function) -> (r: FnId)
        ensures
            final(self)@ == old(self)@.with_function(func@).0,
            r == old(self)@.with_function(func@).1,
    {
        let ghost f = func@;
        if func.linkage == Linkage::External {
            if let Some(id) = self.find_declared(&func) {
                proof {
                    declared_is_there(self@, f);
                }
                let k = self.position(id);
                let mut ids = self.functions_named(func.name.as_str());
                add_fn_id(&mut ids, id);
                let name = func.name.clone();
                self.merge_into(k, func);
                self.set_external(name.as_str(), &ids);
                return id;
            }
            let mut ids = self.functions_named(func.name.as_str());
            ids.push(func.id);
            index_name_insert(&mut self.fn_by_name, func.name.clone(), func.id.0);
            self.set_external(func.name.as_str(), &ids);
        }
        if func.linkage == Linkage::Internal {
            let ghost known = self@.scope(func.file);
            let mut scope = match fx_remove(&mut self.fn_by_scope, func.file.0) {
                Some(m) => m,
                None => fx_name_map(),
            };
            fx_name_insert(&mut scope, func.name.clone(), func.id.0);
            fx_insert(&mut self.fn_by_scope, func.file.0, scope);
            assert(self@.scopes =~= old(self)@.scopes.insert(
                func.file.0,
                known.insert(f.name, f.id.0),
            ));
        }
        let id = func.id;
        let ghost before = self.functions@;
        self.functions.push(func);
        assert(fns_view(self.functions@) =~= fns_view(before).push(f));
        id
    }

    fn merge_into(&mut self, k: usize, func: Function)
        requires
            k < old(self)@.functions.len(),
        ensures
            final(self)@ == (SymbolsV {
                functions: old(self)@.functions.update(
                    k as int,
                    merged(old(self)@.functions[k as int], func@),
                ),
                ..old(self)@
            }),
    {
        let ghost before = self.functions@;
        let ghost e = self.functions@[k as int]@;
        let old_fn = &self.functions[k];
        let existing_params = clone_var_ids(&old_fn.params);
        let params = if func.params.len() > 0 && (func.is_defined || existing_params.len() == 0) {
            clone_var_ids(&func.params)
        } else {
            existing_params
        };
        let next = Function {
            id: old_fn.id,
            name: old_fn.name.clone(),
            linkage: old_fn.linkage,
            return_type: old_fn.return_type,
            params,
            locals: clone_var_ids(&old_fn.locals),
            span: if func.is_defined {
                func.span
            } else {
                old_fn.span
            },
            file: if func.is_defined {
                func.file
            } else {
                old_fn.file
            },
            is_defined: old_fn.is_defined || func.is_defined,
            is_virtual: old_fn.is_virtual || func.is_virtual,
            is_cpp: old_fn.is_cpp,
        };
        assert(next@ =~= merged(e, func@));
        self.functions.set(k, next);
        assert(fns_view(self.functions@) =~= fns_view(before).update(k as int, next@));
    }

    pub fn add_variable(&mut self, var: Variable) -> (r: VarId)
        ensures
            final(self)@ == old(self)@.with_variable(var@),
            r == var.id,
    {
        let id = var.id;
        let ghost v = var@;
        if var.storage == StorageClass::Global {
            index_name_insert(&mut self.global_by_name, var.name.clone(), id.0);
        }
        let ghost before = self.variables@;
        self.variables.push(var);
        assert(vars_view(self.variables@) =~= vars_view(before).push(v));
        id
    }

    pub fn add_call_site(&mut self, site: CallSite)
        ensures
            final(self)@ == (SymbolsV {
                call_sites: old(self)@.call_sites.push(site@),
                ..old(self)@
            }),
    {
        let ghost s = site@;
        let ghost before = self.call_sites@;
        self.call_sites.push(site);
        assert(sites_view(self.call_sites@) =~= sites_view(before).push(s));
    }

    /// Adds a function that no name leads to.
    pub fn add_unlisted(&mut self, func: Function)
        ensures
            final(self)@ == old(self)@.with_unlisted(func@),
    {
        let ghost before = self.functions@;
        let ghost f = func@;
        self.functions.push(func);
        assert(fns_view(self.functions@) =~= fns_view(before).push(f));
    }

    /// Makes the calls by a name that lead nowhere calls of a function.
    pub fn resolve_calls_to(&mut self, name: &str, f: FnId)
        ensures
            final(self)@ == old(self)@.resolved_to(name@, f),
    {
        let ghost start = self@;
        let mut j: usize = 0;
        while j < self.call_sites.len()
            invariant
                j <= self.call_sites@.len() == start.call_sites.len(),
                self@ == (SymbolsV { call_sites: self@.call_sites, ..start }),
                self@.call_sites == sites_view(self.call_sites@),
                forall|k: int|
                    0 <= k < j ==> #[trigger] self@.call_sites[k] == bound_to(
                        start.call_sites[k],
                        name@,
                        f,
                    ),
                forall|k: int|
                    j <= k < start.call_sites.len() ==> #[trigger] self@.call_sites[k]
                        == start.call_sites[k],
            decreases self.call_sites@.len() - j,
        {
            let ghost before = self@.call_sites;
            assert(before[j as int] == self.call_sites@[j as int]@);
            let s = &self.call_sites[j];
            if !s.is_direct && s.callee_var.is_none() && str_eq(s.callee_name.as_str(), name) {
                self.call_sites[j].is_direct = true;
                self.call_sites[j].callee_fn_id = Some(f);
            }
            assert(self@.call_sites =~= before.update(
                j as int,
                bound_to(start.call_sites[j as int], name@, f),
            ));
            j = j + 1;
        }
        assert(self@.call_sites =~= start.resolved_to(name@, f).call_sites);
    }

    /// The files, functions, variables and calls by themselves.
    pub fn into_parts(self) -> (r: (Vec<FileInfo>, Vec<Function>, Vec<Variable>, Vec<CallSite>))
        ensures
            files_view(r.0@) == self@.files,
            fns_view(r.1@) == self@.functions,
            vars_view(r.2@) == self@.variables,
            sites_view(r.3@) == self@.call_sites,
    {
        (self.files, self.functions, self.variables, self.call_sites)
    }

    /// Moves all that belongs to one function to another.
    pub fn reassign_fn_id(&mut self, from: FnId, to: FnId)
        ensures
            final(self)@ == old(self)@.reassigned(from, to),
    {
        if from == to {
            return ;
        }
        let ghost start = self@;
        let mut moved: Vec<VarId> = Vec::new();
        let mut i: usize = 0;
        assert(moved@ =~= Seq::empty());
        while i < self.variables.len()
            invariant
                i <= self.variables@.len() == start.variables.len(),
                moved@ == start.vars_of(from, i as int),
                self@ == (SymbolsV { variables: self@.variables, ..start }),
                self@.variables == vars_view(self.variables@),
                forall|j: int|
                    0 <= j < i ==> #[trigger] self@.variables[j] == owned_by(
                        start.variables[j],
                        from,
                        to,
                    ),
                forall|j: int|
                    i <= j < start.variables.len() ==> #[trigger] self@.variables[j]
                        == start.variables[j],
            decreases self.variables@.len() - i,
        {
            assert(self@.variables[i as int] == self.variables@[i as int]@);
            let is_from = match self.variables[i].fn_id {
                Some(f) => f == from,
                None => false,
            };
            let ghost before = self@.variables;
            if is_from {
                moved.push(self.variables[i].id);
                self.variables[i].fn_id = Some(to);
            }
            assert(self@.variables =~= before.update(
                i as int,
                owned_by(start.variables[i as int], from, to),
            ));
            i = i + 1;
        }
        assert(self@.variables =~= start.reassigned(from, to).variables);
        let ghost mid = self@;
        let mut j: usize = 0;
        while j < self.call_sites.len()
            invariant
                j <= self.call_sites@.len() == start.call_sites.len(),
                mid == (SymbolsV { variables: mid.variables, ..start }),
                self@ == (SymbolsV { call_sites: self@.call_sites, ..mid }),
                self@.call_sites == sites_view(self.call_sites@),
                forall|k: int|
                    0 <= k < j ==> #[trigger] self@.call_sites[k] == called_by(
                        start.call_sites[k],
                        from,
                        to,
                    ),
                forall|k: int|
                    j <= k < start.call_sites.len() ==> #[trigger] self@.call_sites[k]
                        == start.call_sites[k],
            decreases self.call_sites@.len() - j,
        {
            assert(self@.call_sites[j as int] == self.call_sites@[j as int]@);
            let ghost before = self@.call_sites;
            if self.call_sites[j].caller == from {
                self.call_sites[j].caller = to;
            }
            assert(self@.call_sites =~= before.update(
                j as int,
                called_by(start.call_sites[j as int], from, to),
            ));
            j = j + 1;
        }
        assert(self@.call_sites =~= start.reassigned(from, to).call_sites);
        if moved.len() > 0 {
            let k = self.position(to);
            if k < self.functions.len() {
                let locals = clone_var_ids(&self.functions[k].locals);
                self.set_function_vars(k, moved, locals);
            }
        }
    }

    pub fn alloc_fn_id(&mut self) -> (r: FnId)
        ensures
            r == FnId(old(self)@.next_fn),
            final(self)@ == (SymbolsV { next_fn: next_number(old(self)@.next_fn), ..old(self)@ }),
    {
        let id = FnId(self.next_fn);
        self.next_fn = count_up(self.next_fn);
        id
    }

    pub fn alloc_var_id(&mut self) -> (r: VarId)
        ensures
            r == VarId(old(self)@.next_var),
            final(self)@ == (SymbolsV { next_var: next_number(old(self)@.next_var), ..old(self)@ }),
    {
        let id = VarId(self.next_var);
        self.next_var = count_up(self.next_var);
        id
    }

    pub fn alloc_call_id(&mut self) -> (r: CallSiteId)
        ensures
            r == CallSiteId(old(self)@.next_call),
            final(self)@ == (SymbolsV {
                next_call: next_number(old(self)@.next_call),
                ..old(self)@
            }),
    {
        let id = CallSiteId(self.next_call);
        self.next_call = count_up(self.next_call);
        id
    }

    pub fn resolve_function(&self, name: &str) -> (r: Option<FnId>)
        ensures
            r == self@.resolve(name@),
    {
        match index_name_get(&self.fn_by_name, name) {
            Some(id) => Some(FnId(id)),
            None => None,
        }
    }

    /// The global variable of a name.
    pub fn resolve_global(&self, name: &str) -> (r: Option<VarId>)
        ensures
            match r {
                Some(v) => self@.globals.contains_key(name@) && v.0 == self@.globals[name@],
                None => !self@.globals.contains_key(name@),
            },
    {
        match index_name_get(&self.global_by_name, name) {
            Some(id) => Some(VarId(id)),
            None => None,
        }
    }

    fn lookup_in_file(&self, name: &str, file: FileId) -> (r: Option<FnId>)
        ensures
            r == self@.in_file(name@, file),
    {
        match fx_get(&self.fn_by_scope, file.0) {
            Some(scope) => {
                assert(self@.scope(file) == fx_names(*scope));
                match fx_name_get(scope, name) {
                    Some(id) => Some(FnId(id)),
                    None => None,
                }
            },
            None => None,
        }
    }

    fn lookup_in_scopes(&self, name: &str, file: FileId) -> (r: Option<FnId>)
        ensures
            r == (match self@.in_file(name@, file) {
                Some(id) => Some(id),
                None => self@.in_headers(name@, self@.headers_of(file), 0),
            }),
    {
        match self.lookup_in_file(name, file) {
            Some(id) => {
                return Some(id);
            },
            None => {},
        }
        let headers = match fx_get(&self.headers_of, file.0) {
            Some(h) => h,
            None => {
                return None;
            },
        };
        assert(headers@ == self@.headers_of(file));
        let mut i: usize = 0;
        while i < headers.len()
            invariant
                i <= headers@.len(),
                headers@ == self@.headers_of(file),
                self@.in_file(name@, file) is None,
                self@.in_headers(name@, headers@, i as int) == self@.in_headers(
                    name@,
                    headers@,
                    0,
                ),
            decreases headers@.len() - i,
        {
            match self.lookup_in_file(name, headers[i]) {
                Some(id) => {
                    return Some(id);
                },
                None => {},
            }
            i = i + 1;
        }
        None
    }

    /// What a name means in a file.
    pub fn resolve_function_in_scope(&self, name: &str, file: Option<FileId>) -> (r: Option<FnId>)
        ensures
            r == self@.resolve_in_scope(name@, file),
    {
        if let Some(f) = file {
            if let Some(id) = self.lookup_in_scopes(name, f) {
                return Some(id);
            }
        }
        self.resolve_function(name)
    }

    /// Every function that a name may mean.
    pub fn resolve_function_candidates(&self, name: &str, file: Option<FileId>) -> (r: Vec<FnId>)
        ensures
            r@ == self@.candidates(name@, file),
    {
        let mut out: Vec<FnId> = Vec::new();
        if let Some(f) = file {
            if let Some(id) = self.lookup_in_file(name, f) {
                out.push(id);
            }
            let ghost own = out@;
            assert(own =~= match self@.in_file(name@, f) {
                Some(id) => seq![id],
                None => Seq::empty(),
            });
            if let Some(headers) = fx_get(&self.headers_of, f.0) {
                assert(headers@ == self@.headers_of(f));
                let mut i: usize = 0;
                while i < headers.len()
                    invariant
                        i <= headers@.len(),
                        out@ == self@.header_candidates(own, name@, headers@, i as int),
                    decreases headers@.len() - i,
                {
                    if let Some(id) = self.lookup_in_file(name, headers[i]) {
                        add_fn_id(&mut out, id);
                    }
                    i = i + 1;
                }
            }
            assert(out@ == self@.header_candidates(
                own,
                name@,
                self@.headers_of(f),
                self@.headers_of(f).len() as int,
            ));
        } else {
            assert(out@ =~= Seq::<FnId>::empty());
        }
        if let Some(id) = self.resolve_function(name) {
            add_fn_id(&mut out, id);
        }
        let more = self.functions_named(name);
        add_fn_ids(&mut out, &more);
        out
    }

    pub fn function_by_id(&self, id: FnId) -> (r: Option<&Function>)
        ensures
            match r {
                Some(f) => self@.function(id) == Some(f@),
                None => self@.function(id) is None,
            },
    {
        let k = self.position(id);
        if k < self.functions.len() {
            Some(&self.functions[k])
        } else {
            None
        }
    }

    /// The function at a position.
    pub fn function_at(&self, i: usize) -> (r: &Function)
        requires
            i < self@.functions.len(),
        ensures
            r@ == self@.functions[i as int],
    {
        &self.functions[i]
    }

    /// Gives the function at a position its parameters and locals.
    pub fn set_function_vars(&mut self, k: usize, params: Vec<VarId>, locals: Vec<VarId>)
        requires
            k < old(self)@.functions.len(),
        ensures
            final(self)@ == (SymbolsV {
                functions: old(self)@.functions.update(
                    k as int,
                    FnV {
                        params: params@,
                        locals: locals@,
                        ..old(self)@.functions[k as int]
                    },
                ),
                ..old(self)@
            }),
    {
        let ghost before = self.functions@;
        let old_fn = &self.functions[k];
        let next = Function {
            id: old_fn.id,
            name: old_fn.name.clone(),
            linkage: old_fn.linkage,
            return_type: old_fn.return_type,
            params,
            locals,
            span: old_fn.span,
            file: old_fn.file,
            is_defined: old_fn.is_defined,
            is_virtual: old_fn.is_virtual,
            is_cpp: old_fn.is_cpp,
        };
        self.functions.set(k, next);
        assert(fns_view(self.functions@) =~= fns_view(before).update(k as int, next@));
    }

    /// Gives the variable at a position the function that it belongs to.
    pub fn set_owner(&mut self, k: usize, f: Option<FnId>)
        requires
            k < old(self)@.variables.len(),
        ensures
            final(self)@ == (SymbolsV {
                variables: old(self)@.variables.update(
                    k as int,
                    VarV { fn_id: f, ..old(self)@.variables[k as int] },
                ),
                ..old(self)@
            }),
    {
        let ghost before = self.variables@;
        self.variables[k].fn_id = f;
        assert(vars_view(self.variables@) =~= vars_view(before).update(
            k as int,
            VarV { fn_id: f, ..before[k as int]@ },
        ));
    }

    /// How many files there are.
    pub fn file_count(&self) -> (r: usize)
        ensures
            r == self@.files.len(),
    {
        self.files.len()
    }

    /// The file at a position.
    pub fn file_at(&self, i: usize) -> (r: &FileInfo)
        requires
            i < self@.files.len(),
        ensures
            (r.id, r.path@) == self@.files[i as int],
    {
        &self.files[i]
    }

    /// How many functions there are.
    pub fn function_count(&self) -> (r: usize)
        ensures
            r == self@.functions.len(),
    {
        self.functions.len()
    }

    /// The variable at a position.
    pub fn variable_at(&self, i: usize) -> (r: &Variable)
        requires
            i < self@.variables.len(),
        ensures
            r@ == self@.variables[i as int],
    {
        &self.variables[i]
    }

    /// How many variables there are.
    pub fn variable_count(&self) -> (r: usize)
        ensures
            r == self@.variables.len(),
    {
        self.variables.len()
    }

    /// The call site at a position.
    pub fn call_site_at(&self, i: usize) -> (r: &CallSite)
        requires
            i < self@.call_sites.len(),
        ensures
            r@ == self@.call_sites[i as int],
    {
        &self.call_sites[i]
    }

    /// How many call sites there are.
    pub fn call_site_count(&self) -> (r: usize)
        ensures
            r == self@.call_sites.len(),
    {
        self.call_sites.len()
    }

    /// The function with an identifier that is known.
    pub fn function(&self, id: FnId) -> (r: &Function)
        requires
            self@.function(id) is Some,
        ensures
            self@.function(id) == Some(r@),
    {
        let k = self.position(id);
        &self.functions[k]
    }

    pub fn variable_by_id(&self, id: VarId) -> (r: Option<&Variable>)
        ensures
            match r {
                Some(v) => self@.variable(id) == Some(v@),
                None => self@.variable(id) is None,
            },
    {
        let k = id.0 as usize;
        if k < self.variables.len() && self.variables[k].id == id {
            Some(&self.variables[k])
        } else {
            None
        }
    }

    /// The variable with an identifier that is known.
    pub fn variable(&self, id: VarId) -> (r: &Variable)
        requires
            self@.variable(id) is Some,
        ensures
            self@.variable(id) == Some(r@),
    {
        &self.variables[id.0 as usize]
    }

    pub fn call_site_by_id(&self, id: CallSiteId) -> (r: Option<&CallSite>)
        ensures
            match r {
                Some(c) => self@.call_site(id) == Some(c@),
                None => self@.call_site(id) is None,
            },
    {
        let mut i: usize = 0;
        while i < self.call_sites.len()
            invariant
                i <= self.call_sites@.len(),
                site_position(self@.call_sites, id, i as int) == site_position(
                    self@.call_sites,
                    id,
                    0,
                ),
            decreases self.call_sites@.len() - i,
        {
            assert(self@.call_sites[i as int] == self.call_sites@[i as int]@);
            if self.call_sites[i].id == id {
                return Some(&self.call_sites[i]);
            }
            i = i + 1;
        }
        None
    }

    /// Whether no two functions have one identifier.
    pub fn function_ids_unique(&self) -> (r: bool)
        ensures
            r == (forall|i: int, j: int|
                0 <= i < j < self@.functions.len() ==> (#[trigger] self@.functions[i]).id != (
                #[trigger] self@.functions[j]).id),
    {
        let mut j: usize = 0;
        while j < self.functions.len()
            invariant
                j <= self.functions@.len(),
                forall|a: int, b: int|
                    0 <= a < b < j ==> (#[trigger] self@.functions[a]).id != (
                    #[trigger] self@.functions[b]).id,
            decreases self.functions@.len() - j,
        {
            let mut i: usize = 0;
            while i < j
                invariant
                    i <= j < self.functions@.len(),
                    forall|a: int|
                        0 <= a < i ==> (#[trigger] self@.functions[a]).id
                            != self@.functions[j as int].id,
                decreases j - i,
            {
                if self.functions[i].id == self.functions[j].id {
                    assert(self@.functions[i as int].id == self@.functions[j as int].id);
                    return false;
                }
                i = i + 1;
            }
            j = j + 1;
        }
        true
    }
}

pub proof fn agreeing_is_one(s: SymbolsV, ids: Seq<FnId>, func: FnV, i: int)
    requires
        0 <= i <= ids.len(),
    ensures
        match s.agreeing(ids, func, i) {
            Some(id) => ids.contains(id) && s.is_declared_by(id, func),
            None => forall|j: int|
                i <= j < ids.len() ==> !s.is_declared_by(#[trigger] ids[j], func),
        },
    decreases ids.len() - i,
{
    if i < ids.len() && !s.is_declared_by(ids[i], func) {
        agreeing_is_one(s, ids, func, i + 1);
    }
}

/// What is declared once more is there, and the declaration is one of it.
pub proof fn declared_is_there(s: SymbolsV, func: FnV)
    ensures
        s.declared(func) matches Some(id) ==> {
            let k = fn_position(s.functions, id, 0);
            &&& 0 <= k < s.functions.len()
            &&& s.functions[k].id == id
            &&& s.same_function(s.functions[k], func)
        },
{
    agreeing_is_one(s, s.external(func.name), func, 0);
    if let Some(id) = s.declared(func) {
        position_found(s.functions, id, 0);
    }
}

/// Declarations of one external function are one entry: a declaration that
/// agrees with an external function of its name adds no function, is merged
/// into one that it agrees with, and leaves all others alone.
pub proof fn declarations_are_merged(s: SymbolsV, func: FnV, i: int)
    requires
        func.linkage == Linkage::External,
        s.fn_by_name.contains_key(func.name),
        0 <= i < s.external(func.name).len(),
        s.is_declared_by(s.external(func.name)[i], func),
    ensures
        ({
            let (t, id) = s.with_function(func);
            let k = fn_position(s.functions, id, 0);
            &&& s.is_declared_by(id, func)
            &&& t.functions.len() == s.functions.len()
            &&& t.functions[k] == merged(s.functions[k], func)
            &&& forall|j: int|
                0 <= j < s.functions.len() && j != k ==> #[trigger] t.functions[j]
                    == s.functions[j]
        }),
{
    agreeing_is_one(s, s.external(func.name), func, 0);
    declared_is_there(s, func);
}

/// Inside a file, a function that only the file can see comes before every
/// other function of its name.
pub proof fn internal_functions_shadow(s: SymbolsV, name: Seq<char>, file: FileId)
    requires
        s.in_file(name, file) is Some,
    ensures
        s.resolve_in_scope(name, Some(file)) == s.in_file(name, file),
{
}

/// A function with internal linkage is what its name means in its file, and
/// other files' names keep their meaning.
pub proof fn internal_functions_stay_in_their_file(s: SymbolsV, func: FnV, other: FileId)
    requires
        func.linkage == Linkage::Internal,
    ensures
        s.with_function(func).0.resolve_in_scope(func.name, Some(func.file)) == Some(func.id),
        other != func.file ==> s.with_function(func).0.in_file(func.name, other) == s.in_file(
            func.name,
            other,
        ),
        s.with_function(func).0.resolve(func.name) == s.resolve(func.name),
{
}

/// A file has one number, however often its path is added, and under whatever
/// path that names the same parts.
pub proof fn paths_have_one_file(s: SymbolsV, path: Seq<char>, other: Seq<char>)
    requires
        tidied(path) == tidied(other),
    ensures
        s.with_path(path).knows_path(path),
        s.with_path(path).with_path(other) == s.with_path(path),
        s.with_path(path).file_of(other) == s.with_path(path).file_of(path),
        s.knows_path(path) ==> s.with_path(path) == s,
{
}

} // verus!
