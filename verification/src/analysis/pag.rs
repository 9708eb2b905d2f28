//! The pointer assignment graph: a node for everything that can hold a
//! value, and the constraints between nodes.

use crate::analysis::bridges::detect_ipc_pairs;
use crate::analysis::constraints::{
    constraints_view, locations_view, push_constraint, push_location, AbstractLocation, Constraint,
    ConstraintKind, ConstraintV, LocKind, LocV,
};
use crate::analysis::models::{
    builtin_models, model_for_callee, model_of, Effect, FnModel, FnModelSet, ModelV,
};
use crate::collections::{
    fx_get, fx_insert, fx_map, fx_name_get, fx_name_insert, fx_name_map, fx_names, fx_remove,
    fx_set, fx_set_insert, has_key, index_at, index_entries, index_get, index_insert, index_len,
    index_map, index_pair_get, index_pair_insert, index_pair_map, index_pairs, value_of, with_entry,
};
use crate::ir::flow::{returns_view, FlowConstraint, FlowV, ReturnFlow, ReturnV};
use crate::ir::ids::{CallSiteId, FieldId, FileId, FnId, LocId, PagNodeId, TypeId, VarId};
use crate::ir::ipc::{bridges_view, BridgeV, IpcBridge};
use crate::ir::program::{returned, Program, ProgramV};
use crate::ir::symbol::{clone_var_ids, FnV, SiteV, StorageClass, VarV};
use crate::ir::types::{params_view_index, DescV, TypeDesc};
use crate::text::{cat2, cat3, chars_of, decimal, decimal_of, owned, take_push};
use indexmap::IndexMap;
use rustc_hash::{FxHashMap, FxHashSet};
use std::hash::RandomState;
use vstd::prelude::*;

verus! {

/// What a node stands for.
#[derive(Debug, Clone, Copy, PartialEq, Eq, Hash, Structural)]
pub enum PagNodeKind {
    Var(VarId),
    Loc(LocId),
    CallTarget(CallSiteId),
}

#[derive(Debug, Clone, Copy, PartialEq, Eq, Structural)]
pub struct PagNode {
    pub id: PagNodeId,
    pub kind: PagNodeKind,
}

/// Fields are told apart object by object down to this depth; what lies
/// deeper is told apart by type and field only.
pub const FIELD_LOC_DEPTH_CAP: u8 = 4;

/// Which constraints a change at a node concerns.
pub struct SolverIndices {
    pub copy_src: FxHashMap<u32, Vec<usize>>,
    pub addr_of_dst: FxHashMap<u32, Vec<usize>>,
    pub load_src: FxHashMap<u32, Vec<usize>>,
    pub store_dst: FxHashMap<u32, Vec<usize>>,
    pub store_src: FxHashMap<u32, Vec<usize>>,
    pub gep_src: FxHashMap<u32, Vec<usize>>,
    pub dlsym_src: FxHashMap<u32, Vec<usize>>,
    pub indirect_by_target: FxHashMap<u32, Vec<CallSiteId>>,
}

/// The mathematical form of [`SolverIndices`].
#[verifier::ext_equal]
pub struct IndicesV {
    pub copy_src: Map<u32, Seq<usize>>,
    pub addr_of_dst: Map<u32, Seq<usize>>,
    pub load_src: Map<u32, Seq<usize>>,
    pub store_dst: Map<u32, Seq<usize>>,
    pub store_src: Map<u32, Seq<usize>>,
    pub gep_src: Map<u32, Seq<usize>>,
    pub dlsym_src: Map<u32, Seq<usize>>,
    pub indirect_by_target: Map<u32, Seq<CallSiteId>>,
}

/// A map to lists, over what the lists hold.
pub open spec fn lists<T>(m: Map<u32, Vec<T>>) -> Map<u32, Seq<T>> {
    m.map_values(|v: Vec<T>| v@)
}

/// The list of a key.
pub open spec fn list_of<T>(m: Map<u32, Seq<T>>, k: u32) -> Seq<T> {
    if m.contains_key(k) {
        m[k]
    } else {
        Seq::empty()
    }
}

/// With one more element in the list of a key.
pub open spec fn with_listed<T>(m: Map<u32, Seq<T>>, k: u32, t: T) -> Map<u32, Seq<T>> {
    m.insert(k, list_of(m, k).push(t))
}

fn add_listed<T>(m: &mut FxHashMap<u32, Vec<T>>, k: u32, t: T)
    ensures
        lists(final(m)@) == with_listed(lists(old(m)@), k, t),
{
    let mut list = match fx_remove(m, k) {
        Some(v) => v,
        None => Vec::new(),
    };
    assert(list@ =~= list_of(lists(old(m)@), k));
    list.push(t);
    fx_insert(m, k, list);
    assert(lists(m@) =~= with_listed(lists(old(m)@), k, t));
}

fn clone_listed<T: Copy>(m: &FxHashMap<u32, Vec<T>>, k: u32) -> (r: Vec<T>)
    ensures
        r@ == list_of(lists(m@), k),
{
    let mut out: Vec<T> = Vec::new();
    if let Some(list) = fx_get(m, k) {
        let mut i: usize = 0;
        while i < list.len()
            invariant
                i <= list@.len(),
                out@ == list@.take(i as int),
            decreases list@.len() - i,
        {
            out.push(list[i]);
            proof {
                take_push(list@, i as int);
            }
            i = i + 1;
        }
        assert(list@.take(i as int) =~= list@);
    } else {
        assert(out@ =~= Seq::<T>::empty());
    }
    out
}

/// The mathematical form of a [`Pag`].
#[verifier::ext_equal]
pub struct PagV {
    pub nodes: Seq<PagNode>,
    pub constraints: Seq<ConstraintV>,
    pub locations: Seq<LocV>,
    pub var_node: Seq<(u32, u32)>,
    pub loc_node: Seq<(u32, u32)>,
    pub call_targets: Seq<(u32, u32)>,
    pub fn_locations: Seq<(u32, u32)>,
    pub var_location: Seq<(u32, u32)>,
    pub string_locs: Map<Seq<char>, u32>,
    pub field_loc: Map<(u32, u32), u32>,
    pub field_depth: Map<u32, u8>,
    pub field_summary: Map<(u32, u32), u32>,
    pub field_loc_to_summary: Seq<(u32, u32)>,
    pub array_fn_members: Map<u32, Seq<LocId>>,
    pub indirect_return_dst: Map<u32, u32>,
    pub ipc_bridges: Seq<BridgeV>,
    pub indices: IndicesV,
}

/// What kind of place a variable is.
pub open spec fn place_kind(storage: StorageClass) -> LocKind {
    match storage {
        StorageClass::Global => LocKind::Global,
        StorageClass::FileStatic => LocKind::FileStatic,
        StorageClass::FnStatic => LocKind::FnStatic,
        StorageClass::Local | StorageClass::Param => LocKind::Local,
    }
}

/// Whether a variable outlives the call of a function.
pub open spec fn lasting(storage: StorageClass) -> bool {
    storage is Global || storage is FileStatic || storage is FnStatic
}

/// The element type of a pointer or an array; any other type itself.
pub open spec fn pointee_or_element(d: DescV) -> DescV {
    match d {
        DescV::Ptr(inner) => *inner,
        DescV::Array { elem, size } => *elem,
        _ => d,
    }
}

impl ProgramV {
    /// The type behind up to `n` pointers and arrays.
    pub open spec fn behind(self, ty: TypeId, n: nat) -> TypeId
        decreases n,
    {
        if n == 0 {
            ty
        } else {
            match self.types.desc(ty) {
                Some(DescV::Ptr(inner)) => self.behind(
                    self.types.resolved(*inner),
                    (n - 1) as nat,
                ),
                Some(DescV::Array { elem, size }) => self.behind(
                    self.types.resolved(pointee_or_element(*elem)),
                    (n - 1) as nat,
                ),
                _ => ty,
            }
        }
    }

    /// The type behind up to `n` pointers.
    pub open spec fn behind_pointers(self, ty: TypeId, n: nat) -> TypeId
        decreases n,
    {
        if n == 0 {
            ty
        } else {
            match self.types.desc(ty) {
                Some(DescV::Ptr(inner)) => self.behind_pointers(
                    self.types.resolved(*inner),
                    (n - 1) as nat,
                ),
                _ => ty,
            }
        }
    }

    /// The structure or union behind fewer than `n` pointers and arrays.
    pub open spec fn aggregate_behind(self, ty: TypeId, n: nat) -> Option<TypeId>
        decreases n,
    {
        if n == 0 {
            None
        } else {
            match self.types.desc(ty) {
                Some(DescV::Ptr(inner)) => self.aggregate_behind(
                    self.types.resolved(*inner),
                    (n - 1) as nat,
                ),
                Some(DescV::Array { elem, size }) => self.aggregate_behind(
                    self.types.resolved(pointee_or_element(*elem)),
                    (n - 1) as nat,
                ),
                Some(DescV::Struct { name, fields }) => Some(ty),
                Some(DescV::Union { name, fields }) => Some(ty),
                _ => None,
            }
        }
    }

    /// The name of a structure type in the description of its summaries.
    pub open spec fn owner_name(self, ty: TypeId) -> Seq<char> {
        match self.types.desc(ty) {
            Some(DescV::Struct { name, fields }) => name,
            Some(DescV::Union { name, fields }) => name,
            _ => "type"@ + decimal_of(ty.0 as nat),
        }
    }

    /// The type of string literals: the first type from `i` on that is
    /// `char`, or `void`.
    pub open spec fn char_type(self, i: int) -> TypeId
        decreases self.types.types.len() - i,
    {
        if i < 0 || i >= self.types.types.len() {
            TypeId(0)
        } else if self.types.types[i].desc is Char {
            self.types.types[i].id
        } else {
            self.char_type(i + 1)
        }
    }

    /// The parameters of the first of `fns` from `i` on that has any.
    pub open spec fn first_params(self, fns: Seq<FnId>, i: int) -> Option<Seq<VarId>>
        decreases fns.len() - i,
    {
        if i < 0 || i >= fns.len() {
            None
        } else {
            match self.symbols.function(fns[i]) {
                Some(f) => if f.params.len() > 0 {
                    Some(f.params)
                } else {
                    self.first_params(fns, i + 1)
                },
                None => self.first_params(fns, i + 1),
            }
        }
    }

    /// The file of the function that a variable belongs to.
    pub open spec fn file_of_var(self, v: VarId) -> Option<FileId> {
        match self.symbols.variable(v) {
            Some(x) => match x.fn_id {
                Some(f) => match self.symbols.function(f) {
                    Some(func) => Some(func.file),
                    None => None,
                },
                None => None,
            },
            None => None,
        }
    }

    /// The variable that a name means inside a function: the last of its own
    /// variables of that name, or a global one.
    pub open spec fn var_in_fn(self, name: Seq<char>, f: FnId) -> Option<VarId> {
        match last_var(self.symbols.variables, f, name, self.symbols.variables.len() as int) {
            Some(v) => Some(v),
            None => if self.symbols.globals.contains_key(name) {
                Some(VarId(self.symbols.globals[name]))
            } else {
                None
            },
        }
    }
}

/// The last of the first `n` variables that belongs to a function and has the
/// name.
pub open spec fn last_var(vars: Seq<VarV>, f: FnId, name: Seq<char>, n: int) -> Option<VarId>
    decreases n,
{
    if n <= 0 {
        None
    } else if vars[n - 1].fn_id == Some(f) && vars[n - 1].name == name {
        Some(vars[n - 1].id)
    } else {
        last_var(vars, f, name, n - 1)
    }
}

/// The first variable that is passed at a position, from `i` on.
pub open spec fn arg_at(args: Seq<(u32, VarId)>, at: u32, i: int) -> Option<VarId>
    decreases args.len() - i,
{
    if i < 0 || i >= args.len() {
        None
    } else if args[i].0 == at {
        Some(args[i].1)
    } else {
        arg_at(args, at, i + 1)
    }
}

/// The name argument of the first effect from `i` on that looks a function up.
pub open spec fn lookup_arg(effects: Seq<Effect>, i: int) -> Option<u32>
    decreases effects.len() - i,
{
    if i < 0 || i >= effects.len() {
        None
    } else {
        match effects[i] {
            Effect::Dlsym { name_param } => Some(name_param),
            _ => lookup_arg(effects, i + 1),
        }
    }
}

/// Whether the text of a callee goes through a field.
pub open spec fn through_field(callee: Seq<char>) -> bool {
    ||| callee.contains('.')
    ||| exists|i: int| 0 <= i < callee.len() - 1 && #[trigger] callee[i] == '-' && callee[i + 1] == '>'
}

impl PagV {
    /// No nodes and no constraints.
    pub open spec fn empty() -> PagV {
        PagV {
            nodes: Seq::empty(),
            constraints: Seq::empty(),
            locations: Seq::empty(),
            var_node: Seq::empty(),
            loc_node: Seq::empty(),
            call_targets: Seq::empty(),
            fn_locations: Seq::empty(),
            var_location: Seq::empty(),
            string_locs: Map::empty(),
            field_loc: Map::empty(),
            field_depth: Map::empty(),
            field_summary: Map::empty(),
            field_loc_to_summary: Seq::empty(),
            array_fn_members: Map::empty(),
            indirect_return_dst: Map::empty(),
            ipc_bridges: Seq::empty(),
            indices: IndicesV {
                copy_src: Map::empty(),
                addr_of_dst: Map::empty(),
                load_src: Map::empty(),
                store_dst: Map::empty(),
                store_src: Map::empty(),
                gep_src: Map::empty(),
                dlsym_src: Map::empty(),
                indirect_by_target: Map::empty(),
            },
        }
    }

    pub open spec fn next_node(self) -> u32 {
        self.nodes.len() as u32
    }

    pub open spec fn next_loc(self) -> LocId {
        LocId(self.locations.len() as u32)
    }

    pub open spec fn kind_of(self, n: PagNodeId) -> Option<PagNodeKind> {
        if n.0 < self.nodes.len() {
            Some(self.nodes[n.0 as int].kind)
        } else {
            None
        }
    }

    pub open spec fn location(self, l: LocId) -> Option<LocV> {
        if l.0 < self.locations.len() {
            Some(self.locations[l.0 as int])
        } else {
            None
        }
    }

    /// The function that a location is.
    pub open spec fn function_at(self, l: LocId) -> Option<FnId> {
        match self.location(l) {
            Some(loc) => if loc.kind == LocKind::Function {
                loc.fn_id
            } else {
                None
            },
            None => None,
        }
    }

    pub open spec fn with_node(self, kind: PagNodeKind) -> PagV {
        PagV { nodes: self.nodes.push(PagNode { id: PagNodeId(self.next_node()), kind }), ..self }
    }

    /// With a location, and a node for it.
    pub open spec fn with_loc(self, loc: LocV) -> PagV {
        PagV {
            loc_node: with_entry(self.loc_node, loc.id.0, self.next_node()),
            locations: self.locations.push(loc),
            ..self.with_node(PagNodeKind::Loc(loc.id))
        }
    }

    /// With a node for a variable.
    pub open spec fn with_var(self, v: VarId) -> PagV {
        if has_key(self.var_node, v.0) {
            self
        } else {
            PagV {
                var_node: with_entry(self.var_node, v.0, self.next_node()),
                ..self.with_node(PagNodeKind::Var(v))
            }
        }
    }

    /// The node that a variable has once it has been given one.
    pub open spec fn var_node_after(self, v: VarId) -> PagNodeId {
        if has_key(self.var_node, v.0) {
            PagNodeId(value_of(self.var_node, v.0))
        } else {
            PagNodeId(self.next_node())
        }
    }

    /// The node of a variable, if it has one.
    pub open spec fn node_of_var(self, v: VarId) -> Option<PagNodeId> {
        if has_key(self.var_node, v.0) {
            Some(PagNodeId(value_of(self.var_node, v.0)))
        } else {
            None
        }
    }

    pub open spec fn node_of_loc(self, l: LocId) -> Option<PagNodeId> {
        if has_key(self.loc_node, l.0) {
            Some(PagNodeId(value_of(self.loc_node, l.0)))
        } else {
            None
        }
    }

    pub open spec fn fn_location(self, f: FnId) -> Option<LocId> {
        if has_key(self.fn_locations, f.0) {
            Some(LocId(value_of(self.fn_locations, f.0)))
        } else {
            None
        }
    }

    pub open spec fn location_of_var(self, v: VarId) -> Option<LocId> {
        if has_key(self.var_location, v.0) {
            Some(LocId(value_of(self.var_location, v.0)))
        } else {
            None
        }
    }

    /// With a node for the target of a call.
    pub open spec fn with_target(self, cs: CallSiteId) -> PagV {
        if has_key(self.call_targets, cs.0) {
            self
        } else {
            PagV {
                call_targets: with_entry(self.call_targets, cs.0, self.next_node()),
                ..self.with_node(PagNodeKind::CallTarget(cs))
            }
        }
    }

    pub open spec fn target_after(self, cs: CallSiteId) -> PagNodeId {
        if has_key(self.call_targets, cs.0) {
            PagNodeId(value_of(self.call_targets, cs.0))
        } else {
            PagNodeId(self.next_node())
        }
    }

    pub open spec fn with_constraint(
        self,
        kind: ConstraintKind,
        dst: PagNodeId,
        src: PagNodeId,
    ) -> PagV {
        PagV {
            constraints: self.constraints.push(
                ConstraintV { kind, dst, src, field: None, field_name: None },
            ),
            ..self
        }
    }

    pub open spec fn with_gep(
        self,
        dst: PagNodeId,
        base: PagNodeId,
        field: FieldId,
        field_name: Seq<char>,
    ) -> PagV {
        PagV {
            constraints: self.constraints.push(
                ConstraintV {
                    kind: ConstraintKind::Gep,
                    dst,
                    src: base,
                    field: Some(field),
                    field_name: Some(field_name),
                },
            ),
            ..self
        }
    }

    /// With the address of a location at a node.
    pub open spec fn with_addr_of(self, dst: PagNodeId, l: LocId) -> PagV {
        match self.node_of_loc(l) {
            Some(n) => self.with_constraint(ConstraintKind::AddrOf, dst, n),
            None => self,
        }
    }

    /// With a location for a variable.
    pub open spec fn with_place(self, v: VarV) -> PagV {
        let l = self.next_loc();
        let p = self.with_loc(
            LocV {
                id: l,
                kind: place_kind(v.storage),
                var: Some(v.id),
                fn_id: v.fn_id,
                field: None,
                type_id: v.type_id,
                desc: v.name,
            },
        );
        PagV { var_location: with_entry(p.var_location, v.id.0, l.0), ..p }
    }

    /// With a location for a variable that the program has, and that location.
    pub open spec fn ensured_var_loc(self, p: ProgramV, v: VarId) -> (PagV, Option<LocId>) {
        match self.location_of_var(v) {
            Some(l) => (self, Some(l)),
            None => match p.symbols.variable(v) {
                Some(x) => (self.with_place(x), Some(self.next_loc())),
                None => (self, None),
            },
        }
    }

    /// With nodes for the first `n` variables, and locations for those that
    /// last.
    pub open spec fn with_variables(self, vars: Seq<VarV>, n: int) -> PagV
        decreases n,
    {
        if n <= 0 {
            self
        } else {
            let p = self.with_variables(vars, n - 1).with_var(vars[n - 1].id);
            if lasting(vars[n - 1].storage) {
                p.with_place(vars[n - 1])
            } else {
                p
            }
        }
    }

    /// With locations for the first `n` functions.
    pub open spec fn with_functions(self, fns: Seq<FnV>, n: int) -> PagV
        decreases n,
    {
        if n <= 0 {
            self
        } else {
            let p = self.with_functions(fns, n - 1);
            let f = fns[n - 1];
            if has_key(p.fn_locations, f.id.0) {
                p
            } else {
                let l = p.next_loc();
                let q = p.with_loc(
                    LocV {
                        id: l,
                        kind: LocKind::Function,
                        var: None,
                        fn_id: Some(f.id),
                        field: None,
                        type_id: f.return_type,
                        desc: f.name,
                    },
                );
                PagV { fn_locations: with_entry(q.fn_locations, f.id.0, l.0), ..q }
            }
        }
    }

    /// With new storage.
    pub open spec fn with_heap(self, ty: TypeId, desc: Seq<char>) -> PagV {
        self.with_loc(
            LocV {
                id: self.next_loc(),
                kind: LocKind::Heap,
                var: None,
                fn_id: None,
                field: None,
                type_id: ty,
                desc,
            },
        )
    }

    /// With a location for a string literal, and that location.
    pub open spec fn interned_string(self, p: ProgramV, value: Seq<char>) -> (PagV, LocId) {
        if self.string_locs.contains_key(value) {
            (self, LocId(self.string_locs[value]))
        } else {
            let l = self.next_loc();
            let q = self.with_loc(
                LocV {
                    id: l,
                    kind: LocKind::StringLit,
                    var: None,
                    fn_id: None,
                    field: None,
                    type_id: p.char_type(0),
                    desc: value,
                },
            );
            (PagV { string_locs: q.string_locs.insert(value, l.0), ..q }, l)
        }
    }

    /// With what the first `n` effects of a model return at a node.
    pub open spec fn with_return_model(
        self,
        dst: PagNodeId,
        model: ModelV,
        params: Option<Seq<VarId>>,
        n: int,
    ) -> PagV
        decreases n,
    {
        if n <= 0 {
            self
        } else {
            let p = self.with_return_model(dst, model, params, n - 1);
            match model.effects[n - 1] {
                Effect::ReturnAlias { param } => match params {
                    Some(ps) => if param < ps.len() {
                        let formal = ps[param as int];
                        p.with_var(formal).with_constraint(
                            ConstraintKind::Copy,
                            dst,
                            p.var_node_after(formal),
                        )
                    } else {
                        p
                    },
                    None => p,
                },
                Effect::ReturnHeap => p.with_heap(
                    TypeId(0),
                    model.name + "() storage"@,
                ).with_addr_of(dst, p.next_loc()),
                _ => p,
            }
        }
    }
}

/// Where the expansion of return flows stands.
#[verifier::ext_equal]
pub struct ExpandV {
    pub pag: PagV,
    pub visited: Set<u32>,
    /// Whether anything came back.
    pub applied: bool,
}

impl ExpandV {
    /// What `callee` returns reaches `dst`. No function is entered twice, so
    /// no more than `fuel` are entered one inside the other, where `fuel` is
    /// the number of functions of which it is known what they return.
    pub open spec fn expand(
        self,
        p: ProgramV,
        models: Seq<ModelV>,
        dst: PagNodeId,
        callee: FnId,
        fuel: nat,
    ) -> ExpandV
        decreases fuel, 0int, 0int,
    {
        if fuel == 0 || self.visited.contains(callee.0) {
            ExpandV { applied: false, ..self }
        } else {
            let entered = ExpandV {
                visited: self.visited.insert(callee.0),
                applied: false,
                ..self
            };
            match returned(p.fn_returns, callee.0, 0) {
                Some(flows) => entered.flows(p, models, dst, callee, flows, 0, (fuel - 1) as nat),
                None => entered,
            }
        }
    }

    /// The return flows from `i` on.
    pub open spec fn flows(
        self,
        p: ProgramV,
        models: Seq<ModelV>,
        dst: PagNodeId,
        callee: FnId,
        flows: Seq<ReturnV>,
        i: int,
        fuel: nat,
    ) -> ExpandV
        decreases fuel, 2int, flows.len() - i,
    {
        if i < 0 || i >= flows.len() {
            self
        } else {
            let next = match flows[i] {
                ReturnV::AddrOfVar { src } => {
                    let (q, l) = self.pag.ensured_var_loc(p, src);
                    match l {
                        Some(loc) => ExpandV {
                            pag: q.with_addr_of(dst, loc),
                            applied: true,
                            ..self
                        },
                        None => self,
                    }
                },
                ReturnV::AddrOfFn { callee } => match self.pag.fn_location(callee) {
                    Some(loc) => ExpandV {
                        pag: self.pag.with_addr_of(dst, loc),
                        applied: true,
                        ..self
                    },
                    None => self,
                },
                ReturnV::Copy { src } => ExpandV {
                    pag: self.pag.with_var(src).with_constraint(
                        ConstraintKind::Copy,
                        dst,
                        self.pag.var_node_after(src),
                    ),
                    applied: true,
                    ..self
                },
                ReturnV::Call { callee_name } => match p.symbols.function(callee) {
                    Some(f) => {
                        let inner = p.symbols.candidates(callee_name, Some(f.file));
                        let after = (ExpandV { applied: false, ..self }).inner(
                            p,
                            models,
                            dst,
                            inner,
                            0,
                            fuel,
                        );
                        let modeled = after.or_model(p, models, dst, callee_name, inner);
                        ExpandV { applied: self.applied || modeled.applied, ..modeled }
                    },
                    None => self,
                },
            };
            next.flows(p, models, dst, callee, flows, i + 1, fuel)
        }
    }

    /// The candidates from `j` on.
    pub open spec fn inner(
        self,
        p: ProgramV,
        models: Seq<ModelV>,
        dst: PagNodeId,
        inner: Seq<FnId>,
        j: int,
        fuel: nat,
    ) -> ExpandV
        decreases fuel, 1int, inner.len() - j,
    {
        if j < 0 || j >= inner.len() {
            self
        } else {
            let one = self.expand(p, models, dst, inner[j], fuel);
            (ExpandV { applied: self.applied || one.applied, ..one }).inner(
                p,
                models,
                dst,
                inner,
                j + 1,
                fuel,
            )
        }
    }

    /// What the model of a callee returns, where nothing has come back.
    pub open spec fn or_model(
        self,
        p: ProgramV,
        models: Seq<ModelV>,
        dst: PagNodeId,
        name: Seq<char>,
        candidates: Seq<FnId>,
    ) -> ExpandV {
        if self.applied {
            self
        } else {
            match model_of(models, name, 0) {
                Some(m) => ExpandV {
                    pag: self.pag.with_return_model(
                        dst,
                        m,
                        p.first_params(candidates, 0),
                        m.effects.len() as int,
                    ),
                    applied: true,
                    ..self
                },
                None => self,
            }
        }
    }
}

impl PagV {
    /// What `callee` returns reaches `dst`.
    pub open spec fn with_returns_of(
        self,
        p: ProgramV,
        models: Seq<ModelV>,
        dst: PagNodeId,
        callee: FnId,
    ) -> PagV {
        (ExpandV { pag: self, visited: Set::empty(), applied: false }).expand(
            p,
            models,
            dst,
            callee,
            p.fn_returns.len() + 1,
        ).pag
    }

    /// With the constraints of one flow.
    pub open spec fn with_flow(self, p: ProgramV, models: Seq<ModelV>, flow: FlowV) -> PagV {
        match flow {
            FlowV::Copy { dst, src } => self.with_pair(ConstraintKind::Copy, dst, src),
            FlowV::AddrOfVar { dst, src } => {
                let n = self.var_node_after(dst);
                let (q, l) = self.with_var(dst).ensured_var_loc(p, src);
                match l {
                    Some(loc) => q.with_addr_of(n, loc),
                    None => q,
                }
            },
            FlowV::AddrOfFn { dst, callee } => {
                let n = self.var_node_after(dst);
                let q = self.with_var(dst);
                match q.fn_location(callee) {
                    Some(loc) => q.with_addr_of(n, loc),
                    None => q,
                }
            },
            FlowV::Load { dst, src } => self.with_pair(ConstraintKind::Load, dst, src),
            FlowV::Store { dst, src } => self.with_pair(ConstraintKind::Store, dst, src),
            FlowV::GepField { dst, base, field, field_name } => {
                let n = self.var_node_after(dst);
                let q = self.with_var(dst);
                q.with_var(base).with_gep(n, q.var_node_after(base), field, field_name)
            },
            FlowV::ArrayFnMember { array, callee } => {
                let n = self.var_node_after(array);
                let q = self.with_var(array);
                match q.fn_location(callee) {
                    Some(loc) => {
                        let r = q.with_addr_of(n, loc);
                        PagV {
                            array_fn_members: with_listed(r.array_fn_members, array.0, loc),
                            ..r
                        }
                    },
                    None => q,
                }
            },
            FlowV::CallReturn { dst, callee_name } => {
                let n = self.var_node_after(dst);
                let candidates = p.symbols.candidates(callee_name, p.file_of_var(dst));
                (ExpandV {
                    pag: self.with_var(dst),
                    visited: Set::empty(),
                    applied: false,
                }).inner(p, models, n, candidates, 0, p.fn_returns.len() + 1).or_model(
                    p,
                    models,
                    n,
                    callee_name,
                    candidates,
                ).pag
            },
            FlowV::CallReturnIndirect { dst, callee_var } => {
                let q = self.with_var(dst);
                PagV {
                    indirect_return_dst: q.indirect_return_dst.insert(
                        callee_var.0,
                        self.var_node_after(dst).0,
                    ),
                    ..q
                }
            },
            FlowV::NewHeap { dst } => {
                let n = self.var_node_after(dst);
                let q = self.with_var(dst);
                let ty = match p.symbols.variable(dst) {
                    Some(v) => v.type_id,
                    None => TypeId(0),
                };
                q.with_heap(ty, "new heap"@).with_addr_of(n, q.next_loc())
            },
            FlowV::StringConst { dst, value } => {
                let n = self.var_node_after(dst);
                let (q, l) = self.with_var(dst).interned_string(p, value);
                q.with_addr_of(n, l)
            },
        }
    }

    /// With a constraint between two variables.
    pub open spec fn with_pair(self, kind: ConstraintKind, dst: VarId, src: VarId) -> PagV {
        let d = self.var_node_after(dst);
        let q = self.with_var(dst);
        q.with_var(src).with_constraint(kind, d, q.var_node_after(src))
    }

    /// With the constraints of the first `n` flows.
    pub open spec fn with_flows(self, p: ProgramV, models: Seq<ModelV>, n: int) -> PagV
        decreases n,
    {
        if n <= 0 {
            self
        } else {
            self.with_flows(p, models, n - 1).with_flow(p, models, p.flow[n - 1])
        }
    }

    /// With a lookup by name, if a call site makes one.
    pub open spec fn with_lookup(self, models: Seq<ModelV>, cs: SiteV) -> PagV {
        match model_for_callee(models, cs.callee_name) {
            Some(m) => match lookup_arg(m.effects, 0) {
                Some(at) => match cs.return_dst {
                    Some(dst) => match arg_at(cs.var_args, at, 0) {
                        Some(name) => self.with_pair(ConstraintKind::Dlsym, dst, name),
                        None => self,
                    },
                    None => self,
                },
                None => self,
            },
            None => self,
        }
    }

    /// With the lookups of the first `n` call sites.
    pub open spec fn with_lookups(self, sites: Seq<SiteV>, models: Seq<ModelV>, n: int) -> PagV
        decreases n,
    {
        if n <= 0 {
            self
        } else {
            self.with_lookups(sites, models, n - 1).with_lookup(models, sites[n - 1])
        }
    }

    /// With a node for the target of an indirect call, and what may reach it.
    pub open spec fn with_call(self, p: ProgramV, cs: SiteV) -> PagV {
        if cs.is_direct {
            self
        } else {
            match cs.callee_var {
                Some(v) => {
                    let t = self.target_after(cs.id);
                    let q = self.with_target(cs.id);
                    let kind = if through_field(cs.callee_name) {
                        ConstraintKind::Copy
                    } else {
                        ConstraintKind::Load
                    };
                    q.with_var(v).with_constraint(kind, t, q.var_node_after(v))
                },
                None => if p.symbols.resolve(cs.callee_name) is None {
                    let t = self.target_after(cs.id);
                    let q = self.with_target(cs.id);
                    match p.var_in_fn(cs.callee_name, cs.caller) {
                        Some(v) => q.with_var(v).with_constraint(
                            ConstraintKind::Load,
                            t,
                            q.var_node_after(v),
                        ),
                        None => q,
                    }
                } else {
                    self
                },
            }
        }
    }

    /// With the targets of the first `n` call sites.
    pub open spec fn with_calls(self, p: ProgramV, n: int) -> PagV
        decreases n,
    {
        if n <= 0 {
            self
        } else {
            self.with_calls(p, n - 1).with_call(p, p.symbols.call_sites[n - 1])
        }
    }
}

impl IndicesV {
    /// With a constraint under its nodes.
    pub open spec fn with_indexed(self, c: ConstraintV, i: usize) -> IndicesV {
        match c.kind {
            ConstraintKind::Copy => IndicesV {
                copy_src: with_listed(self.copy_src, c.src.0, i),
                ..self
            },
            ConstraintKind::AddrOf => IndicesV {
                addr_of_dst: with_listed(self.addr_of_dst, c.dst.0, i),
                ..self
            },
            ConstraintKind::Load => IndicesV {
                load_src: with_listed(self.load_src, c.src.0, i),
                ..self
            },
            ConstraintKind::Store => IndicesV {
                store_dst: with_listed(self.store_dst, c.dst.0, i),
                store_src: with_listed(self.store_src, c.src.0, i),
                ..self
            },
            ConstraintKind::Gep => IndicesV {
                gep_src: with_listed(self.gep_src, c.src.0, i),
                ..self
            },
            ConstraintKind::Dlsym => IndicesV {
                dlsym_src: with_listed(self.dlsym_src, c.src.0, i),
                ..self
            },
        }
    }
}

/// The nodes that must be looked at again once a constraint is there.
pub open spec fn touched(c: ConstraintV) -> Seq<PagNodeId> {
    if c.kind == ConstraintKind::Store {
        seq![c.src, c.dst]
    } else {
        seq![c.src]
    }
}

impl PagV {
    /// With the constraints from `from` to `to` under their nodes.
    pub open spec fn with_indices(self, from: int, to: int) -> PagV
        decreases to - from,
    {
        if to <= from {
            self
        } else {
            let p = self.with_indices(from, to - 1);
            PagV {
                indices: p.indices.with_indexed(self.constraints[to - 1], (to - 1) as usize),
                ..p
            }
        }
    }

    /// The nodes that the constraints from `from` to `to` touch.
    pub open spec fn touched(self, from: int, to: int) -> Seq<PagNodeId>
        decreases to - from,
    {
        if to <= from {
            Seq::empty()
        } else {
            self.touched(from, to - 1) + touched(self.constraints[to - 1])
        }
    }

    /// With the first `n` call sites under their targets.
    pub open spec fn with_call_indices(self, sites: Seq<SiteV>, n: int) -> PagV
        decreases n,
    {
        if n <= 0 {
            self
        } else {
            let p = self.with_call_indices(sites, n - 1);
            let cs = sites[n - 1];
            if !cs.is_direct && has_key(p.call_targets, cs.id.0) {
                PagV {
                    indices: IndicesV {
                        indirect_by_target: with_listed(
                            p.indices.indirect_by_target,
                            value_of(p.call_targets, cs.id.0),
                            cs.id,
                        ),
                        ..p.indices
                    },
                    ..p
                }
            } else {
                p
            }
        }
    }

    /// The type whose fields an object has.
    pub open spec fn object_type(self, p: ProgramV, l: LocId) -> Option<TypeId> {
        match self.location(l) {
            Some(loc) => match loc.var {
                Some(v) => match p.symbols.variable(v) {
                    Some(x) => Some(p.behind(x.type_id, 4)),
                    None => None,
                },
                None => Some(p.behind_pointers(loc.type_id, 4)),
            },
            None => None,
        }
    }

    /// With a location for a field of all objects of a type, and that
    /// location.
    pub open spec fn ensured_summary(
        self,
        p: ProgramV,
        owner: TypeId,
        field: FieldId,
        field_type: TypeId,
        name: Seq<char>,
    ) -> (PagV, LocId) {
        if self.field_summary.contains_key((owner.0, field.0)) {
            (self, LocId(self.field_summary[(owner.0, field.0)]))
        } else {
            let l = self.next_loc();
            let q = self.with_loc(
                LocV {
                    id: l,
                    kind: LocKind::FieldSummary,
                    var: None,
                    fn_id: None,
                    field: Some(field),
                    type_id: field_type,
                    desc: "summary:"@ + p.owner_name(owner) + ("."@ + name),
                },
            );
            (
                PagV {
                    field_summary: q.field_summary.insert((owner.0, field.0), l.0),
                    ..q
                },
                l,
            )
        }
    }

    /// How deep a location lies in an object.
    pub open spec fn depth(self, l: LocId) -> u8 {
        if self.field_depth.contains_key(l.0) {
            self.field_depth[l.0]
        } else {
            0
        }
    }

    /// With a location for a field of an object.
    pub open spec fn with_field(
        self,
        parent: LocId,
        field: FieldId,
        field_type: TypeId,
        name: Seq<char>,
    ) -> PagV {
        let l = self.next_loc();
        let q = self.with_loc(
            LocV {
                id: l,
                kind: LocKind::Field,
                var: self.locations[parent.0 as int].var,
                fn_id: None,
                field: Some(field),
                type_id: field_type,
                desc: name,
            },
        );
        PagV {
            field_depth: q.field_depth.insert(l.0, (self.depth(parent) + 1) as u8),
            field_loc: q.field_loc.insert((parent.0, field.0), l.0),
            ..q
        }
    }

    /// With a location for a field of an object, and that location: one of
    /// its own, or, too deep inside an object, that of all objects of the
    /// type. None if the object has no such field.
    pub open spec fn ensured_field(self, p: ProgramV, parent: LocId, field: FieldId) -> (
        PagV,
        Option<LocId>,
    ) {
        if self.field_loc.contains_key((parent.0, field.0)) {
            (self, Some(LocId(self.field_loc[(parent.0, field.0)])))
        } else {
            match self.object_type(p, parent) {
                Some(owner) => match p.types.field(owner, field) {
                    Some(fl) => if self.depth(parent) >= FIELD_LOC_DEPTH_CAP {
                        let (q, s) = self.ensured_summary(p, owner, field, fl.type_id, fl.name);
                        (q, Some(s))
                    } else {
                        let l = self.next_loc();
                        let (q, s) = self.with_field(
                            parent,
                            field,
                            fl.type_id,
                            fl.name,
                        ).ensured_summary(p, owner, field, fl.type_id, fl.name);
                        (
                            PagV {
                                field_loc_to_summary: with_entry(q.field_loc_to_summary, l.0, s.0),
                                ..q
                            },
                            Some(l),
                        )
                    },
                    None => (self, None),
                },
                None => (self, None),
            }
        }
    }

    /// The location of a field of all objects of a type.
    pub open spec fn summary_of(self, l: LocId) -> Option<LocId> {
        if has_key(self.field_loc_to_summary, l.0) {
            Some(LocId(value_of(self.field_loc_to_summary, l.0)))
        } else {
            None
        }
    }

    /// With a location for a field of all objects of the type of a variable,
    /// and that location.
    pub open spec fn ensured_var_summary(self, p: ProgramV, v: VarId, field: FieldId) -> (
        PagV,
        Option<LocId>,
    ) {
        match p.symbols.variable(v) {
            Some(x) => match p.aggregate_behind(x.type_id, 6) {
                Some(owner) => match p.types.field(owner, field) {
                    Some(fl) => {
                        let (q, s) = self.ensured_summary(p, owner, field, fl.type_id, fl.name);
                        (q, Some(s))
                    },
                    None => (self, None),
                },
                None => (self, None),
            },
            None => (self, None),
        }
    }

    /// How many parameters the function has that a field of an object may
    /// hold.
    pub open spec fn slot_arity(self, p: ProgramV, base: LocId, field: FieldId) -> Option<nat> {
        match self.object_type(p, base) {
            Some(owner) => match p.types.field(owner, field) {
                Some(fl) => match p.types.desc(fl.type_id) {
                    Some(DescV::FnPtr { ret, params }) => Some(params.len()),
                    _ => None,
                },
                None => None,
            },
            None => None,
        }
    }
}

impl ProgramV {
    /// The graph of a program.
    pub open spec fn graph(self, models: Seq<ModelV>) -> PagV {
        let sites = self.symbols.call_sites;
        let p = PagV::empty().with_variables(
            self.symbols.variables,
            self.symbols.variables.len() as int,
        ).with_functions(
            self.symbols.functions,
            self.symbols.functions.len() as int,
        ).with_flows(self, models, self.flow.len() as int).with_lookups(
            sites,
            models,
            sites.len() as int,
        ).with_calls(self, sites.len() as int);
        let q = p.with_indices(0, p.constraints.len() as int).with_call_indices(
            sites,
            sites.len() as int,
        );
        PagV { ipc_bridges: self.bridges(self.symbols.functions.len() as int), ..q }
    }
}

/// The pointer assignment graph of a program.
pub struct Pag {
    pub nodes: Vec<PagNode>,
    pub constraints: Vec<Constraint>,
    pub locations: Vec<AbstractLocation>,
    pub var_node: IndexMap<u32, u32, RandomState>,
    pub loc_node: IndexMap<u32, u32, RandomState>,
    pub call_targets: IndexMap<u32, u32, RandomState>,
    pub fn_locations: IndexMap<u32, u32, RandomState>,
    pub var_location: IndexMap<u32, u32, RandomState>,
    /// The locations of string literals.
    pub string_locs: FxHashMap<String, u32>,
    /// The locations of the fields of objects.
    pub field_loc: IndexMap<(u32, u32), u32, RandomState>,
    /// How deep inside an object the location of a field lies.
    pub field_depth: FxHashMap<u32, u8>,
    /// The locations of the fields of types.
    pub field_summary: IndexMap<(u32, u32), u32, RandomState>,
    pub field_loc_to_summary: IndexMap<u32, u32, RandomState>,
    /// The functions among the initializers of an array.
    pub array_fn_members: FxHashMap<u32, Vec<LocId>>,
    /// Where what a call through a variable returns goes.
    pub indirect_return_dst: FxHashMap<u32, u32>,
    pub ipc_bridges: Vec<IpcBridge>,
    pub indices: SolverIndices,
}

impl View for SolverIndices {
    type V = IndicesV;

    closed spec fn view(&self) -> IndicesV {
        IndicesV {
            copy_src: lists(self.copy_src@),
            addr_of_dst: lists(self.addr_of_dst@),
            load_src: lists(self.load_src@),
            store_dst: lists(self.store_dst@),
            store_src: lists(self.store_src@),
            gep_src: lists(self.gep_src@),
            dlsym_src: lists(self.dlsym_src@),
            indirect_by_target: lists(self.indirect_by_target@),
        }
    }
}

impl View for Pag {
    type V = PagV;

    closed spec fn view(&self) -> PagV {
        PagV {
            nodes: self.nodes@,
            constraints: constraints_view(self.constraints@),
            locations: locations_view(self.locations@),
            var_node: index_entries(self.var_node),
            loc_node: index_entries(self.loc_node),
            call_targets: index_entries(self.call_targets),
            fn_locations: index_entries(self.fn_locations),
            var_location: index_entries(self.var_location),
            string_locs: fx_names(self.string_locs),
            field_loc: index_pairs(self.field_loc),
            field_depth: self.field_depth@,
            field_summary: index_pairs(self.field_summary),
            field_loc_to_summary: index_entries(self.field_loc_to_summary),
            array_fn_members: lists(self.array_fn_members@),
            indirect_return_dst: self.indirect_return_dst@,
            ipc_bridges: bridges_view(self.ipc_bridges@),
            indices: self.indices@,
        }
    }
}

/// What the fields of a graph stand for.
pub proof fn pag_parts(pag: &Pag)
    ensures
        pag@.nodes == pag.nodes@,
        pag@.constraints == constraints_view(pag.constraints@),
        pag@.locations == locations_view(pag.locations@),
        pag@.var_node == index_entries(pag.var_node),
        pag@.loc_node == index_entries(pag.loc_node),
        pag@.fn_locations == index_entries(pag.fn_locations),
        pag@.var_location == index_entries(pag.var_location),
{
}

impl SolverIndices {
    fn new() -> (r: SolverIndices)
        ensures
            r@ == PagV::empty().indices,
    {
        let r = SolverIndices {
            copy_src: fx_map(),
            addr_of_dst: fx_map(),
            load_src: fx_map(),
            store_dst: fx_map(),
            store_src: fx_map(),
            gep_src: fx_map(),
            dlsym_src: fx_map(),
            indirect_by_target: fx_map(),
        };
        assert(r@.copy_src =~= Map::empty());
        assert(r@.addr_of_dst =~= Map::empty());
        assert(r@.load_src =~= Map::empty());
        assert(r@.store_dst =~= Map::empty());
        assert(r@.store_src =~= Map::empty());
        assert(r@.gep_src =~= Map::empty());
        assert(r@.dlsym_src =~= Map::empty());
        assert(r@.indirect_by_target =~= Map::empty());
        r
    }

    /// Puts a constraint under its nodes.
    fn add(&mut self, kind: ConstraintKind, dst: PagNodeId, src: PagNodeId, i: usize)
        ensures
            forall|c: ConstraintV|
                c.kind == kind && c.dst == dst && c.src == src ==> final(self)@
                    == #[trigger] old(self)@.with_indexed(c, i),
    {
        match kind {
            ConstraintKind::Copy => {
                add_listed(&mut self.copy_src, src.0, i);
            },
            ConstraintKind::AddrOf => {
                add_listed(&mut self.addr_of_dst, dst.0, i);
            },
            ConstraintKind::Load => {
                add_listed(&mut self.load_src, src.0, i);
            },
            ConstraintKind::Store => {
                add_listed(&mut self.store_dst, dst.0, i);
                add_listed(&mut self.store_src, src.0, i);
            },
            ConstraintKind::Gep => {
                add_listed(&mut self.gep_src, src.0, i);
            },
            ConstraintKind::Dlsym => {
                add_listed(&mut self.dlsym_src, src.0, i);
            },
        }
    }
}

fn kind_of_place(storage: StorageClass) -> (r: LocKind)
    ensures
        r == place_kind(storage),
{
    match storage {
        StorageClass::Global => LocKind::Global,
        StorageClass::FileStatic => LocKind::FileStatic,
        StorageClass::FnStatic => LocKind::FnStatic,
        StorageClass::Local => LocKind::Local,
        StorageClass::Param => LocKind::Local,
    }
}

pub fn is_lasting(storage: StorageClass) -> (r: bool)
    ensures
        r == lasting(storage),
{
    match storage {
        StorageClass::Global | StorageClass::FileStatic | StorageClass::FnStatic => true,
        _ => false,
    }
}

impl Default for Pag {
    fn default() -> (r: Pag)
        ensures
            r@ == PagV::empty(),
    {
        Pag::empty()
    }
}

impl Pag {
    /// A graph without anything in it.
    pub fn empty() -> (r: Pag)
        ensures
            r@ == PagV::empty(),
    {
        let r = Pag {
            nodes: Vec::new(),
            constraints: Vec::new(),
            locations: Vec::new(),
            var_node: index_map(),
            loc_node: index_map(),
            call_targets: index_map(),
            fn_locations: index_map(),
            var_location: index_map(),
            string_locs: fx_name_map(),
            field_loc: index_pair_map(),
            field_depth: fx_map(),
            field_summary: index_pair_map(),
            field_loc_to_summary: index_map(),
            array_fn_members: fx_map(),
            indirect_return_dst: fx_map(),
            ipc_bridges: Vec::new(),
            indices: SolverIndices::new(),
        };
        assert(r@ =~= PagV::empty()) by {
            assert(r@.constraints =~= Seq::empty());
            assert(r@.locations =~= Seq::empty());
            assert(r@.array_fn_members =~= Map::empty());
            assert(r@.ipc_bridges =~= Seq::empty());
        }
        r
    }

    fn alloc_node(&mut self, kind: PagNodeKind) -> (r: PagNodeId)
        ensures
            r.0 == old(self)@.next_node(),
            final(self)@ == old(self)@.with_node(kind),
    {
        let id = PagNodeId(self.nodes.len() as u32);
        self.nodes.push(PagNode { id, kind });
        id
    }

    fn next_loc(&self) -> (r: LocId)
        ensures
            r == self@.next_loc(),
    {
        LocId(self.locations.len() as u32)
    }

    fn alloc_loc(&mut self, loc: AbstractLocation) -> (r: LocId)
        ensures
            r == loc.id,
            final(self)@ == old(self)@.with_loc(loc@),
    {
        let id = loc.id;
        let node = self.alloc_node(PagNodeKind::Loc(id));
        index_insert(&mut self.loc_node, id.0, node.0);
        push_location(&mut self.locations, loc);
        id
    }

    /// The node of a variable, which is made if there is none.
    pub fn var_node_id(&mut self, var: VarId) -> (r: PagNodeId)
        ensures
            r == old(self)@.var_node_after(var),
            final(self)@ == old(self)@.with_var(var),
    {
        match index_get(&self.var_node, var.0) {
            Some(n) => PagNodeId(n),
            None => {
                let n = self.alloc_node(PagNodeKind::Var(var));
                index_insert(&mut self.var_node, var.0, n.0);
                n
            },
        }
    }

    /// The node of a variable, if it has one.
    pub fn node_of_var(&self, var: VarId) -> (r: Option<PagNodeId>)
        ensures
            r == self@.node_of_var(var),
    {
        match index_get(&self.var_node, var.0) {
            Some(n) => Some(PagNodeId(n)),
            None => None,
        }
    }

    /// The location of a function, if it has one.
    pub fn fn_location(&self, f: FnId) -> (r: Option<LocId>)
        ensures
            r == self@.fn_location(f),
    {
        match index_get(&self.fn_locations, f.0) {
            Some(l) => Some(LocId(l)),
            None => None,
        }
    }

    /// The location of a variable, if it has one.
    pub fn location_of_var(&self, var: VarId) -> (r: Option<LocId>)
        ensures
            r == self@.location_of_var(var),
    {
        match index_get(&self.var_location, var.0) {
            Some(l) => Some(LocId(l)),
            None => None,
        }
    }

    /// What a node stands for.
    pub fn kind_of(&self, node: PagNodeId) -> (r: Option<PagNodeKind>)
        ensures
            r == self@.kind_of(node),
    {
        if (node.0 as usize) < self.nodes.len() {
            Some(self.nodes[node.0 as usize].kind)
        } else {
            None
        }
    }

    /// A location.
    pub fn location(&self, l: LocId) -> (r: Option<&AbstractLocation>)
        ensures
            match r {
                Some(loc) => self@.location(l) == Some(loc@),
                None => self@.location(l) is None,
            },
    {
        if (l.0 as usize) < self.locations.len() {
            Some(&self.locations[l.0 as usize])
        } else {
            None
        }
    }

    /// The function that a location is.
    pub fn function_at(&self, l: LocId) -> (r: Option<FnId>)
        ensures
            r == self@.function_at(l),
    {
        match self.location(l) {
            Some(loc) => if loc.kind == LocKind::Function {
                loc.fn_id
            } else {
                None
            },
            None => None,
        }
    }

    /// How many constraints there are.
    pub fn constraint_count(&self) -> (r: usize)
        ensures
            r == self@.constraints.len(),
    {
        self.constraints.len()
    }

    /// The constraint at a position.
    pub fn constraint(&self, i: usize) -> (r: &Constraint)
        requires
            i < self@.constraints.len(),
        ensures
            r@ == self@.constraints[i as int],
    {
        &self.constraints[i]
    }

    fn add_constraint(&mut self, kind: ConstraintKind, dst: PagNodeId, src: PagNodeId)
        ensures
            final(self)@ == old(self)@.with_constraint(kind, dst, src),
    {
        push_constraint(
            &mut self.constraints,
            Constraint { kind, dst, src, field: None, field_name: None },
        );
    }

    /// What `src` may hold, `dst` may hold.
    pub fn add_copy(&mut self, dst: PagNodeId, src: PagNodeId)
        ensures
            final(self)@ == old(self)@.with_constraint(ConstraintKind::Copy, dst, src),
    {
        self.add_constraint(ConstraintKind::Copy, dst, src);
    }

    /// `dst` may hold the address of a field of what `base` points to.
    pub fn add_gep(&mut self, dst: PagNodeId, base: PagNodeId, field: FieldId, field_name: String)
        ensures
            final(self)@ == old(self)@.with_gep(dst, base, field, field_name@),
    {
        push_constraint(
            &mut self.constraints,
            Constraint {
                kind: ConstraintKind::Gep,
                dst,
                src: base,
                field: Some(field),
                field_name: Some(field_name),
            },
        );
    }

    fn add_addr_of(&mut self, dst: PagNodeId, l: LocId)
        ensures
            final(self)@ == old(self)@.with_addr_of(dst, l),
    {
        match index_get(&self.loc_node, l.0) {
            Some(n) => {
                self.add_constraint(ConstraintKind::AddrOf, dst, PagNodeId(n));
            },
            None => {},
        }
    }

    fn add_pair(&mut self, kind: ConstraintKind, dst: VarId, src: VarId)
        ensures
            final(self)@ == old(self)@.with_pair(kind, dst, src),
    {
        let d = self.var_node_id(dst);
        let s = self.var_node_id(src);
        self.add_constraint(kind, d, s);
    }

    fn add_place(
        &mut self,
        id: VarId,
        storage: StorageClass,
        fn_id: Option<FnId>,
        type_id: TypeId,
        name: &String,
    ) -> (r: LocId)
        ensures
            r == old(self)@.next_loc(),
            forall|v: VarV|
                v.id == id && v.storage == storage && v.fn_id == fn_id && v.type_id == type_id
                    && v.name == name@ ==> final(self)@ == #[trigger] old(self)@.with_place(v),
    {
        let l = self.next_loc();
        self.alloc_loc(
            AbstractLocation {
                id: l,
                kind: kind_of_place(storage),
                var: Some(id),
                fn_id,
                field: None,
                type_id,
                desc: name.clone(),
            },
        );
        index_insert(&mut self.var_location, id.0, l.0);
        l
    }

    /// The location of a variable of the program, which is made if there is
    /// none.
    pub fn ensure_var_loc(&mut self, program: &Program, var: VarId) -> (r: Option<LocId>)
        ensures
            (final(self)@, r) == old(self)@.ensured_var_loc(program@, var),
    {
        match self.location_of_var(var) {
            Some(l) => {
                return Some(l);
            },
            None => {},
        }
        match program.symbols.variable_by_id(var) {
            Some(v) => Some(self.add_place(v.id, v.storage, v.fn_id, v.type_id, &v.name)),
            None => None,
        }
    }

    fn build_variables(&mut self, program: &Program)
        ensures
            final(self)@ == old(self)@.with_variables(
                program@.symbols.variables,
                program@.symbols.variables.len() as int,
            ),
    {
        let count = program.symbols.variable_count();
        let mut i: usize = 0;
        while i < count
            invariant
                i <= count == program@.symbols.variables.len(),
                self@ == old(self)@.with_variables(program@.symbols.variables, i as int),
            decreases count - i,
        {
            let v = program.symbols.variable_at(i);
            self.var_node_id(v.id);
            if is_lasting(v.storage) {
                self.add_place(v.id, v.storage, v.fn_id, v.type_id, &v.name);
            }
            i = i + 1;
        }
    }

    fn build_function_locations(&mut self, program: &Program)
        ensures
            final(self)@ == old(self)@.with_functions(
                program@.symbols.functions,
                program@.symbols.functions.len() as int,
            ),
    {
        let count = program.symbols.function_count();
        let mut i: usize = 0;
        while i < count
            invariant
                i <= count == program@.symbols.functions.len(),
                self@ == old(self)@.with_functions(program@.symbols.functions, i as int),
            decreases count - i,
        {
            let f = program.symbols.function_at(i);
            if index_get(&self.fn_locations, f.id.0).is_none() {
                let l = self.next_loc();
                self.alloc_loc(
                    AbstractLocation {
                        id: l,
                        kind: LocKind::Function,
                        var: None,
                        fn_id: Some(f.id),
                        field: None,
                        type_id: f.return_type,
                        desc: f.name.clone(),
                    },
                );
                index_insert(&mut self.fn_locations, f.id.0, l.0);
            }
            i = i + 1;
        }
    }

    fn add_heap(&mut self, ty: TypeId, desc: String) -> (r: LocId)
        ensures
            r == old(self)@.next_loc(),
            final(self)@ == old(self)@.with_heap(ty, desc@),
    {
        let l = self.next_loc();
        self.alloc_loc(
            AbstractLocation {
                id: l,
                kind: LocKind::Heap,
                var: None,
                fn_id: None,
                field: None,
                type_id: ty,
                desc,
            },
        )
    }

    fn intern_string_loc(&mut self, program: &Program, value: &str) -> (r: LocId)
        ensures
            (final(self)@, r) == old(self)@.interned_string(program@, value@),
    {
        match fx_name_get(&self.string_locs, value) {
            Some(l) => {
                return LocId(l);
            },
            None => {},
        }
        let type_id = char_type_of(program);
        let l = self.next_loc();
        self.alloc_loc(
            AbstractLocation {
                id: l,
                kind: LocKind::StringLit,
                var: None,
                fn_id: None,
                field: None,
                type_id,
                desc: owned(value),
            },
        );
        fx_name_insert(&mut self.string_locs, owned(value), l.0);
        l
    }

    fn apply_return_model(
        &mut self,
        dst: PagNodeId,
        model: &FnModel,
        params: &Option<Vec<VarId>>,
    )
        ensures
            final(self)@ == old(self)@.with_return_model(
                dst,
                model@,
                opt_ids(*params),
                model@.effects.len() as int,
            ),
    {
        let mut i: usize = 0;
        while i < model.effects.len()
            invariant
                i <= model.effects@.len(),
                self@ == old(self)@.with_return_model(dst, model@, opt_ids(*params), i as int),
            decreases model.effects@.len() - i,
        {
            match model.effects[i] {
                Effect::ReturnAlias { param } => {
                    if let Some(ps) = params {
                        if (param as usize) < ps.len() {
                            let n = self.var_node_id(ps[param as usize]);
                            self.add_copy(dst, n);
                        }
                    }
                },
                Effect::ReturnHeap => {
                    let l = self.add_heap(TypeId(0), cat2(model.name.as_str(), "() storage"));
                    self.add_addr_of(dst, l);
                },
                _ => {},
            }
            i = i + 1;
        }
    }
}

/// A list that may be missing.
pub open spec fn opt_ids(v: Option<Vec<VarId>>) -> Option<Seq<VarId>> {
    match v {
        Some(x) => Some(x@),
        None => None,
    }
}

fn char_type_of(program: &Program) -> (r: TypeId)
    ensures
        r == program@.char_type(0),
{
    let mut i: usize = 0;
    while i < program.types.types.len()
        invariant
            i <= program.types.types@.len(),
            program@.char_type(i as int) == program@.char_type(0),
        decreases program.types.types@.len() - i,
    {
        assert(program@.types.types[i as int] == program.types.types@[i as int]@);
        if let TypeDesc::Char = program.types.types[i].desc {
            return program.types.types[i].id;
        }
        i = i + 1;
    }
    TypeId(0)
}

fn first_params(program: &Program, fns: &Vec<FnId>) -> (r: Option<Vec<VarId>>)
    ensures
        opt_ids(r) == program@.first_params(fns@, 0),
{
    let mut i: usize = 0;
    while i < fns.len()
        invariant
            i <= fns@.len(),
            program@.first_params(fns@, i as int) == program@.first_params(fns@, 0),
        decreases fns@.len() - i,
    {
        if let Some(f) = program.symbols.function_by_id(fns[i]) {
            if f.params.len() > 0 {
                return Some(clone_var_ids(&f.params));
            }
        }
        i = i + 1;
    }
    None
}

fn file_of_var(program: &Program, v: VarId) -> (r: Option<FileId>)
    ensures
        r == program@.file_of_var(v),
{
    match program.symbols.variable_by_id(v) {
        Some(x) => match x.fn_id {
            Some(f) => match program.symbols.function_by_id(f) {
                Some(func) => Some(func.file),
                None => None,
            },
            None => None,
        },
        None => None,
    }
}

impl Pag {
    /// How many functions may be entered one inside the other.
    fn fuel_for(program: &Program) -> (r: u128)
        requires
            program.wf(),
        ensures
            r == program@.fn_returns.len() + 1,
    {
        program.fn_returns.len() as u128 + 1
    }

    /// What `callee` returns reaches `dst`. Tells whether anything came back.
    fn expand_return_flows(
        &mut self,
        program: &Program,
        dst: PagNodeId,
        callee: FnId,
        models: &FnModelSet,
        visited: &mut FxHashSet<u32>,
        fuel: u128,
    ) -> (r: bool)
        requires
            program.wf(),
        ensures
            (ExpandV { pag: final(self)@, visited: final(visited)@, applied: r }) == (ExpandV {
                pag: old(self)@,
                visited: old(visited)@,
                applied: false,
            }).expand(program@, models@, dst, callee, fuel as nat),
        decreases fuel, 0int, 0int,
    {
        if fuel == 0 {
            return false;
        }
        if !fx_set_insert(visited, callee.0) {
            assert(visited@ =~= old(visited)@);
            return false;
        }
        match program.fn_returns.get(callee) {
            Some(flows) => self.expand_flows(program, dst, callee, flows, models, visited, fuel - 1),
            None => false,
        }
    }

    fn expand_flows(
        &mut self,
        program: &Program,
        dst: PagNodeId,
        callee: FnId,
        flows: &Vec<ReturnFlow>,
        models: &FnModelSet,
        visited: &mut FxHashSet<u32>,
        fuel: u128,
    ) -> (r: bool)
        requires
            program.wf(),
        ensures
            (ExpandV { pag: final(self)@, visited: final(visited)@, applied: r }) == (ExpandV {
                pag: old(self)@,
                visited: old(visited)@,
                applied: false,
            }).flows(
                program@,
                models@,
                dst,
                callee,
                returns_view(flows@),
                0,
                fuel as nat,
            ),
        decreases fuel, 2int, 0int,
    {
        let ghost all = returns_view(flows@);
        let ghost goal = (ExpandV {
            pag: self@,
            visited: visited@,
            applied: false,
        }).flows(program@, models@, dst, callee, all, 0, fuel as nat);
        let mut applied = false;
        let mut i: usize = 0;
        while i < flows.len()
            invariant
                program.wf(),
                i <= flows@.len(),
                all == returns_view(flows@),
                (ExpandV { pag: self@, visited: visited@, applied }).flows(
                    program@,
                    models@,
                    dst,
                    callee,
                    all,
                    i as int,
                    fuel as nat,
                ) == goal,
            decreases flows@.len() - i,
        {
            assert(all[i as int] == flows@[i as int]@);
            match &flows[i] {
                ReturnFlow::AddrOfVar { src } => {
                    if let Some(loc) = self.ensure_var_loc(program, *src) {
                        self.add_addr_of(dst, loc);
                        applied = true;
                    }
                },
                ReturnFlow::AddrOfFn { callee: f } => {
                    if let Some(loc) = self.fn_location(*f) {
                        self.add_addr_of(dst, loc);
                        applied = true;
                    }
                },
                ReturnFlow::Copy { src } => {
                    let n = self.var_node_id(*src);
                    self.add_copy(dst, n);
                    applied = true;
                },
                ReturnFlow::Call { callee_name } => {
                    if let Some(f) = program.symbols.function_by_id(callee) {
                        let inner = program.symbols.resolve_function_candidates(
                            callee_name.as_str(),
                            Some(f.file),
                        );
                        let came = self.expand_inner(program, dst, &inner, models, visited, fuel);
                        let came = self.or_model(
                            program,
                            dst,
                            callee_name.as_str(),
                            &inner,
                            models,
                            came,
                        );
                        if came {
                            applied = true;
                        }
                    }
                },
            }
            i = i + 1;
        }
        applied
    }

    fn expand_inner(
        &mut self,
        program: &Program,
        dst: PagNodeId,
        inner: &Vec<FnId>,
        models: &FnModelSet,
        visited: &mut FxHashSet<u32>,
        fuel: u128,
    ) -> (r: bool)
        requires
            program.wf(),
        ensures
            (ExpandV { pag: final(self)@, visited: final(visited)@, applied: r }) == (ExpandV {
                pag: old(self)@,
                visited: old(visited)@,
                applied: false,
            }).inner(program@, models@, dst, inner@, 0, fuel as nat),
        decreases fuel, 1int, 0int,
    {
        let ghost goal = (ExpandV {
            pag: self@,
            visited: visited@,
            applied: false,
        }).inner(program@, models@, dst, inner@, 0, fuel as nat);
        let mut applied = false;
        let mut j: usize = 0;
        while j < inner.len()
            invariant
                program.wf(),
                j <= inner@.len(),
                (ExpandV { pag: self@, visited: visited@, applied }).inner(
                    program@,
                    models@,
                    dst,
                    inner@,
                    j as int,
                    fuel as nat,
                ) == goal,
            decreases inner@.len() - j,
        {
            proof {
                expand_ignores_applied(
                    ExpandV { pag: self@, visited: visited@, applied },
                    program@,
                    models@,
                    dst,
                    inner@[j as int],
                    fuel as nat,
                );
            }
            if self.expand_return_flows(program, dst, inner[j], models, visited, fuel) {
                applied = true;
            }
            j = j + 1;
        }
        applied
    }

    fn or_model(
        &mut self,
        program: &Program,
        dst: PagNodeId,
        name: &str,
        candidates: &Vec<FnId>,
        models: &FnModelSet,
        applied: bool,
    ) -> (r: bool)
        ensures
            forall|visited: Set<u32>|
                #![trigger (ExpandV {
                    pag: old(self)@,
                    visited,
                    applied,
                }).or_model(program@, models@, dst, name@, candidates@)]
                (ExpandV { pag: final(self)@, visited, applied: r }) == (ExpandV {
                    pag: old(self)@,
                    visited,
                    applied,
                }).or_model(program@, models@, dst, name@, candidates@),
    {
        if applied {
            return true;
        }
        match models.get(name) {
            Some(m) => {
                let params = first_params(program, candidates);
                self.apply_return_model(dst, m, &params);
                true
            },
            None => false,
        }
    }

    /// What `callee` returns reaches `dst`.
    pub fn add_returns_of(
        &mut self,
        program: &Program,
        dst: PagNodeId,
        callee: FnId,
        models: &FnModelSet,
    )
        requires
            program.wf(),
        ensures
            final(self)@ == old(self)@.with_returns_of(program@, models@, dst, callee),
    {
        let mut visited: FxHashSet<u32> = fx_set();
        self.expand_return_flows(
            program,
            dst,
            callee,
            models,
            &mut visited,
            Self::fuel_for(program),
        );
    }

    fn add_flow(&mut self, program: &Program, models: &FnModelSet, flow: &FlowConstraint)
        requires
            program.wf(),
        ensures
            final(self)@ == old(self)@.with_flow(program@, models@, flow@),
    {
        match flow {
            FlowConstraint::Copy { dst, src } => {
                self.add_pair(ConstraintKind::Copy, *dst, *src);
            },
            FlowConstraint::AddrOfVar { dst, src } => {
                let n = self.var_node_id(*dst);
                if let Some(loc) = self.ensure_var_loc(program, *src) {
                    self.add_addr_of(n, loc);
                }
            },
            FlowConstraint::AddrOfFn { dst, callee } => {
                let n = self.var_node_id(*dst);
                if let Some(loc) = self.fn_location(*callee) {
                    self.add_addr_of(n, loc);
                }
            },
            FlowConstraint::Load { dst, src } => {
                self.add_pair(ConstraintKind::Load, *dst, *src);
            },
            FlowConstraint::Store { dst, src } => {
                self.add_pair(ConstraintKind::Store, *dst, *src);
            },
            FlowConstraint::GepField { dst, base, field, field_name } => {
                let n = self.var_node_id(*dst);
                let b = self.var_node_id(*base);
                self.add_gep(n, b, *field, field_name.clone());
            },
            FlowConstraint::ArrayFnMember { array, callee } => {
                let n = self.var_node_id(*array);
                if let Some(loc) = self.fn_location(*callee) {
                    self.add_addr_of(n, loc);
                    add_listed(&mut self.array_fn_members, array.0, loc);
                }
            },
            FlowConstraint::CallReturn { dst, callee_name } => {
                let n = self.var_node_id(*dst);
                let file = file_of_var(program, *dst);
                let candidates = program.symbols.resolve_function_candidates(
                    callee_name.as_str(),
                    file,
                );
                let mut visited: FxHashSet<u32> = fx_set();
                let came = self.expand_inner(
                    program,
                    n,
                    &candidates,
                    models,
                    &mut visited,
                    Self::fuel_for(program),
                );
                self.or_model(program, n, callee_name.as_str(), &candidates, models, came);
            },
            FlowConstraint::CallReturnIndirect { dst, callee_var } => {
                let n = self.var_node_id(*dst);
                fx_insert(&mut self.indirect_return_dst, callee_var.0, n.0);
            },
            FlowConstraint::NewHeap { dst } => {
                let n = self.var_node_id(*dst);
                let ty = match program.symbols.variable_by_id(*dst) {
                    Some(v) => v.type_id,
                    None => TypeId(0),
                };
                let l = self.add_heap(ty, owned("new heap"));
                self.add_addr_of(n, l);
            },
            FlowConstraint::StringConst { dst, value } => {
                let n = self.var_node_id(*dst);
                let l = self.intern_string_loc(program, value.as_str());
                self.add_addr_of(n, l);
            },
        }
    }

    fn build_flow_constraints(&mut self, program: &Program, models: &FnModelSet)
        requires
            program.wf(),
        ensures
            final(self)@ == old(self)@.with_flows(program@, models@, program@.flow.len() as int),
    {
        let mut i: usize = 0;
        while i < program.flow.len()
            invariant
                program.wf(),
                i <= program.flow@.len(),
                self@ == old(self)@.with_flows(program@, models@, i as int),
            decreases program.flow@.len() - i,
        {
            assert(program@.flow[i as int] == program.flow@[i as int]@);
            self.add_flow(program, models, &program.flow[i]);
            i = i + 1;
        }
    }

    fn build_dlsym_constraints(&mut self, program: &Program, models: &FnModelSet)
        ensures
            final(self)@ == old(self)@.with_lookups(
                program@.symbols.call_sites,
                models@,
                program@.symbols.call_sites.len() as int,
            ),
    {
        let count = program.symbols.call_site_count();
        let mut i: usize = 0;
        while i < count
            invariant
                i <= count == program@.symbols.call_sites.len(),
                self@ == old(self)@.with_lookups(program@.symbols.call_sites, models@, i as int),
            decreases count - i,
        {
            let cs = program.symbols.call_site_at(i);
            if let Some(m) = models.get_for_callee(cs.callee_name.as_str()) {
                if let Some(at) = find_lookup(&m.effects) {
                    if let Some(dst) = cs.return_dst {
                        if let Some(name) = find_arg(&cs.var_args, at) {
                            self.add_pair(ConstraintKind::Dlsym, dst, name);
                        }
                    }
                }
            }
            i = i + 1;
        }
    }

    /// The node of the target of a call, which is made if there is none.
    pub fn call_target_node(&mut self, cs: CallSiteId) -> (r: PagNodeId)
        ensures
            r == old(self)@.target_after(cs),
            final(self)@ == old(self)@.with_target(cs),
    {
        match index_get(&self.call_targets, cs.0) {
            Some(n) => PagNodeId(n),
            None => {
                let n = self.alloc_node(PagNodeKind::CallTarget(cs));
                index_insert(&mut self.call_targets, cs.0, n.0);
                n
            },
        }
    }

    fn build_call_constraints(&mut self, program: &Program)
        ensures
            final(self)@ == old(self)@.with_calls(
                program@,
                program@.symbols.call_sites.len() as int,
            ),
    {
        let fn_vars = vars_by_fn(program);
        let count = program.symbols.call_site_count();
        let mut i: usize = 0;
        while i < count
            invariant
                i <= count == program@.symbols.call_sites.len(),
                names_each_var(
                    fn_vars@,
                    program@.symbols.variables,
                    program@.symbols.variables.len() as int,
                ),
                self@ == old(self)@.with_calls(program@, i as int),
            decreases count - i,
        {
            let cs = program.symbols.call_site_at(i);
            if !cs.is_direct {
                if let Some(v) = cs.callee_var {
                    let t = self.call_target_node(cs.id);
                    let n = self.var_node_id(v);
                    if goes_through_field(cs.callee_name.as_str()) {
                        self.add_copy(t, n);
                    } else {
                        self.add_constraint(ConstraintKind::Load, t, n);
                    }
                } else if program.symbols.resolve_function(cs.callee_name.as_str()).is_none() {
                    let t = self.call_target_node(cs.id);
                    let name = cs.callee_name.as_str();
                    let own = match fx_get(&fn_vars, cs.caller.0) {
                        Some(names) => fx_name_get(names, name),
                        None => None,
                    };
                    assert(lookup_var(fn_vars@, cs.caller.0, name@) == last_var(
                        program@.symbols.variables,
                        cs.caller,
                        name@,
                        program@.symbols.variables.len() as int,
                    ));
                    let found = match own {
                        Some(v) => Some(VarId(v)),
                        None => program.symbols.resolve_global(name),
                    };
                    if let Some(v) = found {
                        let n = self.var_node_id(v);
                        self.add_constraint(ConstraintKind::Load, t, n);
                    }
                }
            }
            i = i + 1;
        }
    }

    fn build_indices(&mut self, program: &Program)
        ensures
            final(self)@ == old(self)@.with_indices(
                0,
                old(self)@.constraints.len() as int,
            ).with_call_indices(
                program@.symbols.call_sites,
                program@.symbols.call_sites.len() as int,
            ),
    {
        let ghost start = self@;
        let n = self.constraints.len();
        let mut i: usize = 0;
        while i < n
            invariant
                i <= n == start.constraints.len(),
                self@.constraints == start.constraints,
                self@ == start.with_indices(0, i as int),
            decreases n - i,
        {
            assert(self.constraints@[i as int]@ == self@.constraints[i as int]);
            let kind = self.constraints[i].kind;
            let dst = self.constraints[i].dst;
            let src = self.constraints[i].src;
            assert(self@.constraints == constraints_view(self.constraints@));
            self.indices.add(kind, dst, src, i);
            i = i + 1;
        }
        let ghost mid = self@;
        let count = program.symbols.call_site_count();
        let mut j: usize = 0;
        while j < count
            invariant
                j <= count == program@.symbols.call_sites.len(),
                self@ == mid.with_call_indices(program@.symbols.call_sites, j as int),
            decreases count - j,
        {
            let cs = program.symbols.call_site_at(j);
            if !cs.is_direct {
                if let Some(t) = index_get(&self.call_targets, cs.id.0) {
                    add_listed(&mut self.indices.indirect_by_target, t, cs.id);
                }
            }
            j = j + 1;
        }
    }

    /// Puts the constraints from `from` on under their nodes, and tells which
    /// nodes must be looked at again.
    pub fn index_new_constraints(&mut self, from: usize) -> (r: Vec<PagNodeId>)
        requires
            from <= old(self)@.constraints.len(),
        ensures
            final(self)@ == old(self)@.with_indices(
                from as int,
                old(self)@.constraints.len() as int,
            ),
            r@ == old(self)@.touched(from as int, old(self)@.constraints.len() as int),
    {
        let ghost start = self@;
        let n = self.constraints.len();
        let mut out: Vec<PagNodeId> = Vec::new();
        let mut i: usize = from;
        assert(out@ =~= Seq::empty());
        while i < n
            invariant
                from <= i <= n == start.constraints.len(),
                self@.constraints == start.constraints,
                self@ == start.with_indices(from as int, i as int),
                out@ == start.touched(from as int, i as int),
            decreases n - i,
        {
            assert(self.constraints@[i as int]@ == self@.constraints[i as int]);
            let kind = self.constraints[i].kind;
            let dst = self.constraints[i].dst;
            let src = self.constraints[i].src;
            self.indices.add(kind, dst, src, i);
            let ghost before = out@;
            out.push(src);
            if kind == ConstraintKind::Store {
                out.push(dst);
            }
            assert(out@ =~= before + touched(start.constraints[i as int]));
            i = i + 1;
        }
        out
    }

    /// The graph of a program.
    pub fn build(program: &Program) -> (r: Pag)
        requires
            program.wf(),
        ensures
            r@ == program@.graph(builtin_models()),
    {
        Self::build_with_models(program, &FnModelSet::builtin())
    }

    /// The graph of a program, where the effects of some functions are known.
    pub fn build_with_models(program: &Program, models: &FnModelSet) -> (r: Pag)
        requires
            program.wf(),
        ensures
            r@ == program@.graph(models@),
    {
        let mut pag = Pag::empty();
        pag.build_variables(program);
        pag.build_function_locations(program);
        pag.build_flow_constraints(program, models);
        pag.build_dlsym_constraints(program, models);
        pag.build_call_constraints(program);
        pag.build_indices(program);
        pag.ipc_bridges = detect_ipc_pairs(program);
        pag
    }
}

/// What has come back before does not bear on what comes back next.
proof fn expand_ignores_applied(
    e: ExpandV,
    p: ProgramV,
    models: Seq<ModelV>,
    dst: PagNodeId,
    callee: FnId,
    fuel: nat,
)
    ensures
        e.expand(p, models, dst, callee, fuel) == (ExpandV { applied: false, ..e }).expand(
            p,
            models,
            dst,
            callee,
            fuel,
        ),
{
}

fn find_lookup(effects: &Vec<Effect>) -> (r: Option<u32>)
    ensures
        r == lookup_arg(effects@, 0),
{
    let mut i: usize = 0;
    while i < effects.len()
        invariant
            i <= effects@.len(),
            lookup_arg(effects@, i as int) == lookup_arg(effects@, 0),
        decreases effects@.len() - i,
    {
        if let Effect::Dlsym { name_param } = effects[i] {
            return Some(name_param);
        }
        i = i + 1;
    }
    None
}

/// The variable that is passed at a position.
pub fn find_arg(args: &Vec<(u32, VarId)>, at: u32) -> (r: Option<VarId>)
    ensures
        r == arg_at(args@, at, 0),
{
    let mut i: usize = 0;
    while i < args.len()
        invariant
            i <= args@.len(),
            arg_at(args@, at, i as int) == arg_at(args@, at, 0),
        decreases args@.len() - i,
    {
        if args[i].0 == at {
            return Some(args[i].1);
        }
        i = i + 1;
    }
    None
}

/// Whether the text of a callee goes through a field.
pub fn goes_through_field(callee: &str) -> (r: bool)
    ensures
        r == through_field(callee@),
{
    let cs = chars_of(callee);
    let mut i: usize = 0;
    while i < cs.len()
        invariant
            cs@ == callee@,
            i <= cs@.len(),
            forall|j: int| 0 <= j < i ==> callee@[j] != '.',
            forall|j: int|
                0 <= j < i && j < callee@.len() - 1 ==> !(#[trigger] callee@[j] == '-' && callee@[j
                    + 1] == '>'),
        decreases cs@.len() - i,
    {
        if cs[i] == '.' {
            assert(callee@[i as int] == '.');
            return true;
        }
        if i + 1 < cs.len() && cs[i] == '-' && cs[i + 1] == '>' {
            assert(callee@[i as int] == '-' && callee@[i + 1] == '>');
            return true;
        }
        i = i + 1;
    }
    false
}

/// What a name means among the variables of a function.
pub open spec fn lookup_var(m: Map<u32, FxHashMap<String, u32>>, f: u32, name: Seq<char>) -> Option<
    VarId,
> {
    if m.contains_key(f) && fx_names(m[f]).contains_key(name) {
        Some(VarId(fx_names(m[f])[name]))
    } else {
        None
    }
}

/// The map has the last of the first `n` variables for each function and name.
pub open spec fn names_each_var(
    m: Map<u32, FxHashMap<String, u32>>,
    vars: Seq<VarV>,
    n: int,
) -> bool {
    forall|f: u32, name: Seq<char>| #[trigger]
        lookup_var(m, f, name) == last_var(vars, FnId(f), name, n)
}

fn vars_by_fn(program: &Program) -> (r: FxHashMap<u32, FxHashMap<String, u32>>)
    ensures
        names_each_var(
            r@,
            program@.symbols.variables,
            program@.symbols.variables.len() as int,
        ),
{
    let ghost vars = program@.symbols.variables;
    let mut m: FxHashMap<u32, FxHashMap<String, u32>> = fx_map();
    let count = program.symbols.variable_count();
    let mut i: usize = 0;
    while i < count
        invariant
            vars == program@.symbols.variables,
            i <= count == vars.len(),
            names_each_var(m@, vars, i as int),
        decreases count - i,
    {
        let v = program.symbols.variable_at(i);
        let ghost before = m@;
        if let Some(f) = v.fn_id {
            let mut names = match fx_remove(&mut m, f.0) {
                Some(x) => x,
                None => fx_name_map(),
            };
            fx_name_insert(&mut names, v.name.clone(), v.id.0);
            fx_insert(&mut m, f.0, names);
        }
        proof {
            assert forall|f: u32, name: Seq<char>| #[trigger]
                lookup_var(m@, f, name) == last_var(vars, FnId(f), name, i + 1) by {
                assert(lookup_var(before, f, name) == last_var(vars, FnId(f), name, i as int));
            }
        }
        i = i + 1;
    }
    m
}

/// The type behind up to `n` pointers and arrays.
fn type_behind(program: &Program, ty: TypeId, n: u8) -> (r: TypeId)
    ensures
        r == program@.behind(ty, n as nat),
    decreases n,
{
    if n == 0 {
        return ty;
    }
    match program.types.get(ty) {
        Some(t) => match &t.desc {
            TypeDesc::Ptr(inner) => {
                let next = program.types.resolve_type_id(inner);
                type_behind(program, next, n - 1)
            },
            TypeDesc::Array { elem, size } => {
                let next = program.types.resolve_type_id(inner_or_elem(elem));
                type_behind(program, next, n - 1)
            },
            _ => ty,
        },
        None => ty,
    }
}

fn inner_or_elem(desc: &TypeDesc) -> (r: &TypeDesc)
    ensures
        r@ == pointee_or_element(desc@),
{
    match desc {
        TypeDesc::Ptr(inner) => inner,
        TypeDesc::Array { elem, size } => elem,
        _ => desc,
    }
}

fn type_behind_pointers(program: &Program, ty: TypeId, n: u8) -> (r: TypeId)
    ensures
        r == program@.behind_pointers(ty, n as nat),
    decreases n,
{
    if n == 0 {
        return ty;
    }
    match program.types.get(ty) {
        Some(t) => match &t.desc {
            TypeDesc::Ptr(inner) => {
                let next = program.types.resolve_type_id(inner);
                type_behind_pointers(program, next, n - 1)
            },
            _ => ty,
        },
        None => ty,
    }
}

fn aggregate_behind(program: &Program, ty: TypeId, n: u8) -> (r: Option<TypeId>)
    ensures
        r == program@.aggregate_behind(ty, n as nat),
    decreases n,
{
    if n == 0 {
        return None;
    }
    match program.types.get(ty) {
        Some(t) => match &t.desc {
            TypeDesc::Ptr(inner) => {
                let next = program.types.resolve_type_id(inner);
                aggregate_behind(program, next, n - 1)
            },
            TypeDesc::Array { elem, size } => {
                let next = program.types.resolve_type_id(inner_or_elem(elem));
                aggregate_behind(program, next, n - 1)
            },
            TypeDesc::Struct { name, fields } => Some(ty),
            TypeDesc::Union { name, fields } => Some(ty),
            _ => None,
        },
        None => None,
    }
}

fn owner_name(program: &Program, ty: TypeId) -> (r: String)
    ensures
        r@ == program@.owner_name(ty),
{
    if let Some(t) = program.types.get(ty) {
        match &t.desc {
            TypeDesc::Struct { name, fields } => {
                return name.clone();
            },
            TypeDesc::Union { name, fields } => {
                return name.clone();
            },
            _ => {},
        }
    }
    let n = decimal(ty.0 as u64);
    cat2("type", n.as_str())
}

impl Pag {
    /// The type whose fields an object has.
    pub fn object_type(&self, program: &Program, l: LocId) -> (r: Option<TypeId>)
        ensures
            r == self@.object_type(program@, l),
    {
        match self.location(l) {
            Some(loc) => match loc.var {
                Some(v) => match program.symbols.variable_by_id(v) {
                    Some(x) => Some(type_behind(program, x.type_id, 4)),
                    None => None,
                },
                None => Some(type_behind_pointers(program, loc.type_id, 4)),
            },
            None => None,
        }
    }

    fn ensure_field_summary_loc(
        &mut self,
        program: &Program,
        owner: TypeId,
        field: FieldId,
        field_type: TypeId,
        name: &str,
    ) -> (r: LocId)
        ensures
            (final(self)@, r) == old(self)@.ensured_summary(
                program@,
                owner,
                field,
                field_type,
                name@,
            ),
    {
        match index_pair_get(&self.field_summary, (owner.0, field.0)) {
            Some(l) => {
                return LocId(l);
            },
            None => {},
        }
        let owner_text = owner_name(program, owner);
        let tail = cat2(".", name);
        let l = self.next_loc();
        self.alloc_loc(
            AbstractLocation {
                id: l,
                kind: LocKind::FieldSummary,
                var: None,
                fn_id: None,
                field: Some(field),
                type_id: field_type,
                desc: cat3("summary:", owner_text.as_str(), tail.as_str()),
            },
        );
        index_pair_insert(&mut self.field_summary, (owner.0, field.0), l.0);
        l
    }

    fn depth(&self, l: LocId) -> (r: u8)
        ensures
            r == self@.depth(l),
    {
        match fx_get(&self.field_depth, l.0) {
            Some(d) => *d,
            None => 0,
        }
    }

    fn alloc_field_loc(
        &mut self,
        parent: LocId,
        field: FieldId,
        field_type: TypeId,
        name: &str,
    ) -> (r: LocId)
        requires
            parent.0 < old(self)@.locations.len(),
            old(self)@.depth(parent) < FIELD_LOC_DEPTH_CAP,
        ensures
            r == old(self)@.next_loc(),
            final(self)@ == old(self)@.with_field(parent, field, field_type, name@),
    {
        assert(self@.locations[parent.0 as int] == self.locations@[parent.0 as int]@);
        let base = self.locations[parent.0 as usize].var;
        let d = self.depth(parent);
        let l = self.next_loc();
        self.alloc_loc(
            AbstractLocation {
                id: l,
                kind: LocKind::Field,
                var: base,
                fn_id: None,
                field: Some(field),
                type_id: field_type,
                desc: owned(name),
            },
        );
        fx_insert(&mut self.field_depth, l.0, d + 1);
        index_pair_insert(&mut self.field_loc, (parent.0, field.0), l.0);
        l
    }

    /// The location of a field of an object, which is made if there is none:
    /// one of its own, or, too deep inside an object, that of the field of
    /// all objects of the type.
    pub fn ensure_field_loc(&mut self, program: &Program, parent: LocId, field: FieldId) -> (r:
        Option<LocId>)
        ensures
            (final(self)@, r) == old(self)@.ensured_field(program@, parent, field),
    {
        match self.field_loc_for_parent(parent, field) {
            Some(l) => {
                return Some(l);
            },
            None => {},
        }
        let owner = match self.object_type(program, parent) {
            Some(t) => t,
            None => {
                return None;
            },
        };
        let fl = match program.types.field(owner, field) {
            Some(f) => f,
            None => {
                return None;
            },
        };
        if self.depth(parent) >= FIELD_LOC_DEPTH_CAP {
            return Some(
                self.ensure_field_summary_loc(
                    program,
                    owner,
                    field,
                    fl.type_id,
                    fl.name.as_str(),
                ),
            );
        }
        let l = self.alloc_field_loc(parent, field, fl.type_id, fl.name.as_str());
        let s = self.ensure_field_summary_loc(program, owner, field, fl.type_id, fl.name.as_str());
        index_insert(&mut self.field_loc_to_summary, l.0, s.0);
        Some(l)
    }

    /// The location of the same field of all objects of the type.
    pub fn summary_for_field_loc(&self, field_loc: LocId) -> (r: Option<LocId>)
        ensures
            r == self@.summary_of(field_loc),
    {
        match index_get(&self.field_loc_to_summary, field_loc.0) {
            Some(s) => Some(LocId(s)),
            None => None,
        }
    }

    /// The location of a field of all objects of the type of a variable.
    pub fn ensure_field_summary_for_var(
        &mut self,
        program: &Program,
        var: VarId,
        field: FieldId,
    ) -> (r: Option<LocId>)
        ensures
            (final(self)@, r) == old(self)@.ensured_var_summary(program@, var, field),
    {
        let v = match program.symbols.variable_by_id(var) {
            Some(v) => v,
            None => {
                return None;
            },
        };
        let owner = match aggregate_behind(program, v.type_id, 6) {
            Some(t) => t,
            None => {
                return None;
            },
        };
        match program.types.field(owner, field) {
            Some(fl) => Some(
                self.ensure_field_summary_loc(
                    program,
                    owner,
                    field,
                    fl.type_id,
                    fl.name.as_str(),
                ),
            ),
            None => None,
        }
    }

    /// The location of a field of an object, if there is one.
    pub fn field_loc_for_parent(&self, parent: LocId, field: FieldId) -> (r: Option<LocId>)
        ensures
            match r {
                Some(l) => self@.field_loc.contains_key((parent.0, field.0)) && l.0
                    == self@.field_loc[(parent.0, field.0)],
                None => !self@.field_loc.contains_key((parent.0, field.0)),
            },
    {
        match index_pair_get(&self.field_loc, (parent.0, field.0)) {
            Some(l) => Some(LocId(l)),
            None => None,
        }
    }

    /// How many parameters the function has that a field of an object may
    /// hold.
    pub fn field_slot_arity(&self, program: &Program, base: LocId, field: FieldId) -> (r: Option<
        usize,
    >)
        ensures
            match r {
                Some(n) => self@.slot_arity(program@, base, field) == Some(n as nat),
                None => self@.slot_arity(program@, base, field) is None,
            },
    {
        let owner = match self.object_type(program, base) {
            Some(t) => t,
            None => {
                return None;
            },
        };
        let fl = match program.types.field(owner, field) {
            Some(f) => f,
            None => {
                return None;
            },
        };
        match program.types.get(fl.type_id) {
            Some(t) => match &t.desc {
                TypeDesc::FnPtr { ret, params } => {
                    proof {
                        params_view_index(params@);
                    }
                    Some(params.len())
                },
                _ => None,
            },
            None => None,
        }
    }
}

impl Pag {
    /// The copies from a node.
    pub fn copies_from(&self, n: u32) -> (r: Vec<usize>)
        ensures
            r@ == list_of(self@.indices.copy_src, n),
    {
        clone_listed(&self.indices.copy_src, n)
    }

    /// The addresses that reach a node.
    pub fn addresses_at(&self, n: u32) -> (r: Vec<usize>)
        ensures
            r@ == list_of(self@.indices.addr_of_dst, n),
    {
        clone_listed(&self.indices.addr_of_dst, n)
    }

    /// The loads through a node.
    pub fn loads_from(&self, n: u32) -> (r: Vec<usize>)
        ensures
            r@ == list_of(self@.indices.load_src, n),
    {
        clone_listed(&self.indices.load_src, n)
    }

    /// The stores through a node.
    pub fn stores_into(&self, n: u32) -> (r: Vec<usize>)
        ensures
            r@ == list_of(self@.indices.store_dst, n),
    {
        clone_listed(&self.indices.store_dst, n)
    }

    /// The stores of what a node holds.
    pub fn stores_of(&self, n: u32) -> (r: Vec<usize>)
        ensures
            r@ == list_of(self@.indices.store_src, n),
    {
        clone_listed(&self.indices.store_src, n)
    }

    /// The field accesses through a node.
    pub fn geps_from(&self, n: u32) -> (r: Vec<usize>)
        ensures
            r@ == list_of(self@.indices.gep_src, n),
    {
        clone_listed(&self.indices.gep_src, n)
    }

    /// The lookups of what a node holds.
    pub fn lookups_of(&self, n: u32) -> (r: Vec<usize>)
        ensures
            r@ == list_of(self@.indices.dlsym_src, n),
    {
        clone_listed(&self.indices.dlsym_src, n)
    }

    /// The calls whose target a node is.
    pub fn calls_at(&self, n: u32) -> (r: Vec<CallSiteId>)
        ensures
            r@ == list_of(self@.indices.indirect_by_target, n),
    {
        clone_listed(&self.indices.indirect_by_target, n)
    }

    /// The functions among the initializers of an array.
    pub fn array_members(&self, array: VarId) -> (r: Vec<LocId>)
        ensures
            r@ == list_of(self@.array_fn_members, array.0),
    {
        clone_listed(&self.array_fn_members, array.0)
    }

    /// Whether functions are among the initializers of an array.
    pub fn has_array_members(&self, array: VarId) -> (r: bool)
        ensures
            r == self@.array_fn_members.contains_key(array.0),
    {
        fx_get(&self.array_fn_members, array.0).is_some()
    }

    /// All loads, by the node that they go through.
    pub fn loads(&self) -> (r: &FxHashMap<u32, Vec<usize>>)
        ensures
            lists(r@) == self@.indices.load_src,
    {
        &self.indices.load_src
    }

    /// Where what a call through a variable returns goes.
    pub fn return_dst(&self, callee_var: VarId) -> (r: Option<PagNodeId>)
        ensures
            match r {
                Some(n) => self@.indirect_return_dst.contains_key(callee_var.0) && n.0
                    == self@.indirect_return_dst[callee_var.0],
                None => !self@.indirect_return_dst.contains_key(callee_var.0),
            },
    {
        match fx_get(&self.indirect_return_dst, callee_var.0) {
            Some(n) => Some(PagNodeId(*n)),
            None => None,
        }
    }

    /// How many functions have a location.
    pub fn fn_location_count(&self) -> (r: usize)
        ensures
            r == self@.fn_locations.len(),
    {
        index_len(&self.fn_locations)
    }

    /// A function and its location, by position.
    pub fn fn_location_at(&self, i: usize) -> (r: (u32, u32))
        requires
            i < self@.fn_locations.len(),
        ensures
            r == self@.fn_locations[i as int],
    {
        index_at(&self.fn_locations, i)
    }

    /// How many locations there are.
    pub fn location_count(&self) -> (r: usize)
        ensures
            r == self@.locations.len(),
    {
        self.locations.len()
    }

    /// The location at a position.
    pub fn location_at(&self, i: usize) -> (r: &AbstractLocation)
        requires
            i < self@.locations.len(),
        ensures
            r@ == self@.locations[i as int],
    {
        &self.locations[i]
    }

    /// How many nodes there are.
    pub fn node_count(&self) -> (r: usize)
        ensures
            r == self@.nodes.len(),
    {
        self.nodes.len()
    }

    /// How many bridges there are.
    pub fn bridge_count(&self) -> (r: usize)
        ensures
            r == self@.ipc_bridges.len(),
    {
        self.ipc_bridges.len()
    }

    /// The bridge at a position.
    pub fn bridge_at(&self, i: usize) -> (r: &IpcBridge)
        requires
            i < self@.ipc_bridges.len(),
        ensures
            r@ == self@.ipc_bridges[i as int],
    {
        &self.ipc_bridges[i]
    }

    /// Takes the bridges out of the graph.
    pub fn take_bridges(self) -> (r: (Pag, Vec<IpcBridge>))
        ensures
            r.0@ == (PagV { ipc_bridges: Seq::empty(), ..self@ }),
            bridges_view(r.1@) == self@.ipc_bridges,
    {
        let mut pag = self;
        let bridges = pag.ipc_bridges;
        pag.ipc_bridges = Vec::new();
        assert(pag@.ipc_bridges =~= Seq::empty());
        (pag, bridges)
    }

    /// Puts bridges into the graph.
    pub fn put_bridges(self, bridges: Vec<IpcBridge>) -> (r: Pag)
        ensures
            r@ == (PagV { ipc_bridges: bridges_view(bridges@), ..self@ }),
    {
        let mut pag = self;
        pag.ipc_bridges = bridges;
        pag
    }

    /// Drops all bridges.
    pub fn clear_bridges(&mut self)
        ensures
            final(self)@ == (PagV { ipc_bridges: Seq::empty(), ..old(self)@ }),
    {
        self.ipc_bridges = Vec::new();
        assert(self@.ipc_bridges =~= Seq::empty());
    }

    /// Adds a copy, and puts it under its source.
    pub fn add_indexed_copy(&mut self, dst: PagNodeId, src: PagNodeId)
        ensures
            ({
                let i = old(self)@.constraints.len() as usize;
                let p = old(self)@.with_constraint(ConstraintKind::Copy, dst, src);
                final(self)@ == (PagV {
                    indices: IndicesV {
                        copy_src: with_listed(p.indices.copy_src, src.0, i),
                        ..p.indices
                    },
                    ..p
                })
            }),
    {
        let i = self.constraints.len();
        self.add_copy(dst, src);
        add_listed(&mut self.indices.copy_src, src.0, i);
    }

    /// Adds a store, and puts it under its nodes.
    pub fn add_indexed_store(&mut self, dst: PagNodeId, src: PagNodeId)
        ensures
            ({
                let i = old(self)@.constraints.len() as usize;
                let p = old(self)@.with_constraint(ConstraintKind::Store, dst, src);
                final(self)@ == (PagV {
                    indices: IndicesV {
                        store_dst: with_listed(p.indices.store_dst, dst.0, i),
                        store_src: with_listed(p.indices.store_src, src.0, i),
                        ..p.indices
                    },
                    ..p
                })
            }),
    {
        let i = self.constraints.len();
        self.add_constraint(ConstraintKind::Store, dst, src);
        add_listed(&mut self.indices.store_dst, dst.0, i);
        add_listed(&mut self.indices.store_src, src.0, i);
    }
}

} // verus!
