//! How values move through a program.

use crate::ir::ids::{FieldId, FnId, VarId};
use vstd::prelude::*;

verus! {

/// One move of a value.
#[derive(Debug)]
pub enum FlowConstraint {
    Copy { dst: VarId, src: VarId },
    AddrOfVar { dst: VarId, src: VarId },
    AddrOfFn { dst: VarId, callee: FnId },
    Load { dst: VarId, src: VarId },
    Store { dst: VarId, src: VarId },
    GepField { dst: VarId, base: VarId, field: FieldId, field_name: String },
    /// A function among the initializers of an array.
    ArrayFnMember { array: VarId, callee: FnId },
    CallReturn { dst: VarId, callee_name: String },
    CallReturnIndirect { dst: VarId, callee_var: VarId },
    NewHeap { dst: VarId },
    StringConst { dst: VarId, value: String },
}

/// The mathematical form of a [`FlowConstraint`].
pub enum FlowV {
    Copy { dst: VarId, src: VarId },
    AddrOfVar { dst: VarId, src: VarId },
    AddrOfFn { dst: VarId, callee: FnId },
    Load { dst: VarId, src: VarId },
    Store { dst: VarId, src: VarId },
    GepField { dst: VarId, base: VarId, field: FieldId, field_name: Seq<char> },
    ArrayFnMember { array: VarId, callee: FnId },
    CallReturn { dst: VarId, callee_name: Seq<char> },
    CallReturnIndirect { dst: VarId, callee_var: VarId },
    NewHeap { dst: VarId },
    StringConst { dst: VarId, value: Seq<char> },
}

impl View for FlowConstraint {
    type V = FlowV;

    open spec fn view(&self) -> FlowV {
        match *self {
            FlowConstraint::Copy { dst, src } => FlowV::Copy { dst, src },
            FlowConstraint::AddrOfVar { dst, src } => FlowV::AddrOfVar { dst, src },
            FlowConstraint::AddrOfFn { dst, callee } => FlowV::AddrOfFn { dst, callee },
            FlowConstraint::Load { dst, src } => FlowV::Load { dst, src },
            FlowConstraint::Store { dst, src } => FlowV::Store { dst, src },
            FlowConstraint::GepField { dst, base, field, field_name } => FlowV::GepField {
                dst,
                base,
                field,
                field_name: field_name@,
            },
            FlowConstraint::ArrayFnMember { array, callee } => FlowV::ArrayFnMember {
                array,
                callee,
            },
            FlowConstraint::CallReturn { dst, callee_name } => FlowV::CallReturn {
                dst,
                callee_name: callee_name@,
            },
            FlowConstraint::CallReturnIndirect { dst, callee_var } => FlowV::CallReturnIndirect {
                dst,
                callee_var,
            },
            FlowConstraint::NewHeap { dst } => FlowV::NewHeap { dst },
            FlowConstraint::StringConst { dst, value } => FlowV::StringConst { dst, value: value@ },
        }
    }
}

/// What a function returns.
#[derive(Debug)]
pub enum ReturnFlow {
    AddrOfVar { src: VarId },
    AddrOfFn { callee: FnId },
    Copy { src: VarId },
    Call { callee_name: String },
}

/// The mathematical form of a [`ReturnFlow`].
pub enum ReturnV {
    AddrOfVar { src: VarId },
    AddrOfFn { callee: FnId },
    Copy { src: VarId },
    Call { callee_name: Seq<char> },
}

impl View for ReturnFlow {
    type V = ReturnV;

    open spec fn view(&self) -> ReturnV {
        match *self {
            ReturnFlow::AddrOfVar { src } => ReturnV::AddrOfVar { src },
            ReturnFlow::AddrOfFn { callee } => ReturnV::AddrOfFn { callee },
            ReturnFlow::Copy { src } => ReturnV::Copy { src },
            ReturnFlow::Call { callee_name } => ReturnV::Call { callee_name: callee_name@ },
        }
    }
}

impl Clone for ReturnFlow {
    fn clone(&self) -> (r: Self)
        ensures
            r@ == self@,
    {
        match self {
            ReturnFlow::AddrOfVar { src } => ReturnFlow::AddrOfVar { src: *src },
            ReturnFlow::AddrOfFn { callee } => ReturnFlow::AddrOfFn { callee: *callee },
            ReturnFlow::Copy { src } => ReturnFlow::Copy { src: *src },
            ReturnFlow::Call { callee_name } => ReturnFlow::Call {
                callee_name: callee_name.clone(),
            },
        }
    }
}

pub open spec fn flows_view(s: Seq<FlowConstraint>) -> Seq<FlowV> {
    Seq::new(s.len(), |i: int| s[i]@)
}

pub open spec fn returns_view(s: Seq<ReturnFlow>) -> Seq<ReturnV> {
    Seq::new(s.len(), |i: int| s[i]@)
}

/// Appends a flow.
pub fn push_flow(flows: &mut Vec<FlowConstraint>, flow: FlowConstraint)
    ensures
        flows_view(final(flows)@) == flows_view(old(flows)@).push(flow@),
{
    let ghost before = flows@;
    flows.push(flow);
    assert(flows_view(flows@) =~= flows_view(before).push(flow@));
}

/// Appends a return flow.
pub fn push_return(flows: &mut Vec<ReturnFlow>, flow: ReturnFlow)
    ensures
        returns_view(final(flows)@) == returns_view(old(flows)@).push(flow@),
{
    let ghost before = flows@;
    flows.push(flow);
    assert(returns_view(flows@) =~= returns_view(before).push(flow@));
}

} // verus!
