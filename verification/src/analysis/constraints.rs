//! What the analysis is made of, and what it finds.

use crate::ir::ids::{CallSiteId, FieldId, FnId, LocId, PagNodeId, TypeId, VarId};
use vstd::prelude::*;

verus! {

#[derive(Debug, Clone, Copy, PartialEq, Eq, Hash, Structural)]
pub enum ConstraintKind {
    Copy,
    AddrOf,
    Load,
    Store,
    Gep,
    /// The destination may hold the functions that are named by the strings
    /// that the source may hold.
    Dlsym,
}

/// How what one node may hold bears on what another may hold.
#[derive(Debug)]
pub struct Constraint {
    pub kind: ConstraintKind,
    pub dst: PagNodeId,
    pub src: PagNodeId,
    pub field: Option<FieldId>,
    pub field_name: Option<String>,
}

/// The mathematical form of a [`Constraint`].
pub struct ConstraintV {
    pub kind: ConstraintKind,
    pub dst: PagNodeId,
    pub src: PagNodeId,
    pub field: Option<FieldId>,
    pub field_name: Option<Seq<char>>,
}

impl View for Constraint {
    type V = ConstraintV;

    open spec fn view(&self) -> ConstraintV {
        ConstraintV {
            kind: self.kind,
            dst: self.dst,
            src: self.src,
            field: self.field,
            field_name: match self.field_name {
                Some(n) => Some(n@),
                None => None,
            },
        }
    }
}

/// How the target of a call was found.
#[derive(Debug, Clone, Copy, PartialEq, Eq, Structural)]
pub enum ResolutionKind {
    Direct,
    Indirect,
    Ambiguous,
    /// A plain name without a definition in the program.
    External,
    /// A call between processes, which has no call site of its own.
    IpcBridge,
}

/// A call that may happen.
#[derive(Debug, Clone, Copy, PartialEq, Eq, Structural)]
pub struct CallGraphEdge {
    pub call_site: CallSiteId,
    pub caller: FnId,
    pub callee: FnId,
    pub resolution: ResolutionKind,
}

/// An argument that may reach a parameter.
#[derive(Debug, Clone, Copy, PartialEq, Eq, Structural)]
pub struct ArgFlowEdge {
    pub call_site: CallSiteId,
    pub arg_index: u32,
    pub actual_var: Option<VarId>,
    pub actual_fn: Option<FnId>,
    pub formal: VarId,
}

#[derive(Debug, Clone, Copy, PartialEq, Eq, Hash, Structural)]
pub enum LocKind {
    Global,
    FileStatic,
    FnStatic,
    Local,
    Heap,
    Field,
    /// One field of all objects of a type.
    FieldSummary,
    ArraySummary,
    Function,
    /// A string literal, whose text is the description.
    StringLit,
}

/// A place that can hold a value, or a function.
#[derive(Debug)]
pub struct AbstractLocation {
    pub id: LocId,
    pub kind: LocKind,
    pub var: Option<VarId>,
    pub fn_id: Option<FnId>,
    pub field: Option<FieldId>,
    pub type_id: TypeId,
    pub desc: String,
}

/// The mathematical form of an [`AbstractLocation`].
pub struct LocV {
    pub id: LocId,
    pub kind: LocKind,
    pub var: Option<VarId>,
    pub fn_id: Option<FnId>,
    pub field: Option<FieldId>,
    pub type_id: TypeId,
    pub desc: Seq<char>,
}

impl View for AbstractLocation {
    type V = LocV;

    open spec fn view(&self) -> LocV {
        LocV {
            id: self.id,
            kind: self.kind,
            var: self.var,
            fn_id: self.fn_id,
            field: self.field,
            type_id: self.type_id,
            desc: self.desc@,
        }
    }
}

pub open spec fn constraints_view(s: Seq<Constraint>) -> Seq<ConstraintV> {
    Seq::new(s.len(), |i: int| s[i]@)
}

pub open spec fn locations_view(s: Seq<AbstractLocation>) -> Seq<LocV> {
    Seq::new(s.len(), |i: int| s[i]@)
}

/// Appends a constraint.
pub fn push_constraint(list: &mut Vec<Constraint>, c: Constraint)
    ensures
        constraints_view(final(list)@) == constraints_view(old(list)@).push(c@),
{
    let ghost before = list@;
    list.push(c);
    assert(constraints_view(list@) =~= constraints_view(before).push(c@));
}

/// Appends a location.
pub fn push_location(list: &mut Vec<AbstractLocation>, l: AbstractLocation)
    ensures
        locations_view(final(list)@) == locations_view(old(list)@).push(l@),
{
    let ghost before = list@;
    list.push(l);
    assert(locations_view(list@) =~= locations_view(before).push(l@));
}

} // verus!
