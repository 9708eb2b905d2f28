//! What a source contributes is in the program that it is merged into.

use crate::index::contents::{fns_leave, merging_leaves, sites_leave};
use crate::index::merge::{vars_of, MergeV, UnitV};
use crate::ir::flow::FlowV;
use crate::ir::ids::VarId;
use crate::ir::program::ProgramV;
use crate::ir::symbol::{SiteV, VarV};
use vstd::prelude::*;

verus! {

/// Whether variables have different numbers.
pub open spec fn numbers_differ(vars: Seq<VarV>) -> bool {
    forall|i: int, j: int|
        0 <= i < j < vars.len() ==> (#[trigger] vars[i]).id != (#[trigger] vars[j]).id
}

/// Whether two variables are alike but for their numbers and those of their types
/// and files.
pub open spec fn alike(a: VarV, b: VarV) -> bool {
    &&& b.name == a.name
    &&& b.storage == a.storage
    &&& b.param_index == a.param_index
    &&& b.is_pointer == a.is_pointer
    &&& b.span.line == a.span.line
    &&& b.span.col == a.span.col
}

/// Whether a variable of a source has become one of a program: one of those
/// behind the first `from` has the number, and the two are alike.
pub open spec fn became(unit: UnitV, q: ProgramV, from: nat, v: VarId, w: VarId) -> bool {
    exists|i: int, k: int|
        0 <= i < unit.variables.len() && from <= k < q.symbols.variables.len() && (
        #[trigger] unit.variables[i]).id == v && (#[trigger] q.symbols.variables[k]).id == w
            && alike(unit.variables[i], q.symbols.variables[k])
}

/// Whether the first `n` variables have come into a merge.
spec fn brought(a: MergeV, b: MergeV, vars: Seq<VarV>, n: int) -> bool {
    let from = a.program.symbols.variables.len();
    &&& b.program.symbols.variables.len() == from + n
    &&& b.dropped == a.dropped
    &&& forall|i: int|
        0 <= i < n ==> {
            &&& b.vars.contains_key((#[trigger] vars[i]).id.0)
            &&& b.program.symbols.variables[from + i].id.0 == b.vars[vars[i].id.0]
            &&& alike(vars[i], b.program.symbols.variables[from + i])
            &&& b.program.symbols.variables[from + i].type_id == a.ty(vars[i].type_id)
            &&& b.program.symbols.variables[from + i].span.file == a.file(vars[i].span.file)
        }
    &&& b.types == a.types
    &&& b.files == a.files
    &&& b.primary == a.primary
    &&& b.program.symbols.call_sites == a.program.symbols.call_sites
    &&& b.program.dedup == a.program.dedup
    &&& b.program.flow == a.program.flow
}

proof fn variables_come(m: MergeV, vars: Seq<VarV>, n: int)
    requires
        0 <= n <= vars.len(),
        numbers_differ(vars),
        m.dropped == Set::<u32>::empty(),
    ensures
        brought(m, m.with_vars(vars, n), vars, n),
    decreases n,
{
    if n > 0 {
        variables_come(m, vars, n - 1);
        let a = m.with_vars(vars, n - 1);
        let b = m.with_vars(vars, n);
        let from = m.program.symbols.variables.len();
        assert forall|i: int| 0 <= i < n implies {
            &&& b.vars.contains_key((#[trigger] vars[i]).id.0)
            &&& b.program.symbols.variables[from + i].id.0 == b.vars[vars[i].id.0]
            &&& alike(vars[i], b.program.symbols.variables[from + i])
            &&& b.program.symbols.variables[from + i].type_id == m.ty(vars[i].type_id)
            &&& b.program.symbols.variables[from + i].span.file == m.file(vars[i].span.file)
        } by {
            if i < n - 1 {
                assert(vars[i].id != vars[n - 1].id);
                assert(a.vars.contains_key(vars[i].id.0));
            }
        }
    }
}

/// Whether a number is that of a variable of a source.
pub open spec fn has_number(unit: UnitV, v: VarId) -> bool {
    exists|i: int| 0 <= i < unit.variables.len() && (#[trigger] unit.variables[i]).id == v
}

/// The stages of a merge.
spec fn before_sites(p: ProgramV, unit: UnitV) -> MergeV {
    let m1 = p.merging(unit).with_vars(unit.variables, unit.variables.len() as int);
    let m2 = m1.with_fns(unit.functions, unit.functions.len() as int);
    m2.with_owners(
        p.symbols.variables.len() as int,
        m2.program.symbols.variables.len() as int,
    )
}

spec fn behind_sites(p: ProgramV, unit: UnitV) -> MergeV {
    before_sites(p, unit).with_sites(unit.call_sites, unit.call_sites.len() as int)
}

proof fn variables_have_become(p: ProgramV, unit: UnitV)
    requires
        numbers_differ(unit.variables),
        p.merging(unit).dropped == Set::<u32>::empty(),
    ensures
        ({
            let from = p.symbols.variables.len();
            let m = before_sites(p, unit);
            let b = behind_sites(p, unit);
            let q = p.merged(unit);
            &&& m.dropped == Set::<u32>::empty()
            &&& b.vars == m.vars
            &&& b.program.flow == p.flow
            &&& m.program.symbols.call_sites == p.symbols.call_sites
            &&& m.program.dedup.sites == p.dedup.sites
            &&& q.symbols == b.program.symbols
            &&& q.symbols.variables.len() == from + unit.variables.len()
            &&& forall|i: int|
                0 <= i < unit.variables.len() ==> {
                    let w = q.symbols.variables[from + i];
                    &&& alike(#[trigger] unit.variables[i], w)
                    &&& w.type_id == p.merging(unit).ty(unit.variables[i].type_id)
                    &&& w.span.file == p.merging(unit).file(unit.variables[i].span.file)
                }
            &&& forall|v: VarId| #[trigger]
                has_number(unit, v) ==> m.vars.contains_key(v.0) && became(
                    unit,
                    q,
                    from,
                    v,
                    VarId(m.vars[v.0]),
                )
        }),
{
    let from = p.symbols.variables.len();
    let n = unit.variables.len() as int;
    let m0 = p.merging(unit);
    merging_leaves(p, unit);
    let m1 = m0.with_vars(unit.variables, n);
    variables_come(m0, unit.variables, n);
    let m2 = m1.with_fns(unit.functions, unit.functions.len() as int);
    fns_leave(m1, unit.functions, unit.functions.len() as int);
    fns_drop_nothing(m1, unit.functions.len() as int, unit);
    let m = before_sites(p, unit);
    let b = behind_sites(p, unit);
    sites_leave(m, unit.call_sites, unit.call_sites.len() as int);
    let q = p.merged(unit);
    assert forall|i: int| 0 <= i < unit.variables.len() implies {
        let w = q.symbols.variables[from + i];
        &&& alike(#[trigger] unit.variables[i], w)
        &&& w.type_id == p.merging(unit).ty(unit.variables[i].type_id)
        &&& w.span.file == p.merging(unit).file(unit.variables[i].span.file)
    } by {
        let w1 = m1.program.symbols.variables[from + i];
        let w = q.symbols.variables[from + i];
        assert(alike(unit.variables[i], w1));
        assert(w.type_id == w1.type_id && w.span == w1.span);
    }
    assert forall|v: VarId| #[trigger] has_number(unit, v) implies m.vars.contains_key(v.0)
        && became(unit, q, from, v, VarId(m.vars[v.0])) by {
        let i = choose|i: int|
            0 <= i < unit.variables.len() && (#[trigger] unit.variables[i]).id == v;
        assert(m1.vars.contains_key(unit.variables[i].id.0));
        let k = from + i;
        assert(alike(m1.program.symbols.variables[k], q.symbols.variables[k]));
        assert(q.symbols.variables[k].id == VarId(m.vars[v.0]));
    }
}

proof fn fns_drop_nothing(m: MergeV, n: int, unit: UnitV)
    ensures
        m.with_fns(unit.functions, n).dropped == m.dropped,
    decreases n,
{
    if n > 0 {
        fns_drop_nothing(m, n - 1, unit);
    }
}

/// Every variable of a source becomes a variable of the program, with its name,
/// its type and its place.
pub proof fn variables_are_brought(p: ProgramV, unit: UnitV, i: int)
    requires
        numbers_differ(unit.variables),
        p.merging(unit).dropped == Set::<u32>::empty(),
        0 <= i < unit.variables.len(),
    ensures
        ({
            let q = p.merged(unit);
            let v = unit.variables[i];
            let w = q.symbols.variables[p.symbols.variables.len() + i];
            &&& q.symbols.variables.len() == p.symbols.variables.len() + unit.variables.len()
            &&& alike(v, w)
            &&& w.type_id == p.merging(unit).ty(v.type_id)
            &&& w.span.file == p.merging(unit).file(v.span.file)
        }),
{
    variables_have_become(p, unit);
    assert(alike(unit.variables[i], p.merged(unit).symbols.variables[p.symbols.variables.len()
        + i]));
}

/// Whether a move of a source has become one of a program: the two are of one
/// kind, and every variable of the one has become the same variable of the other.
pub open spec fn same_move(unit: UnitV, q: ProgramV, from: nat, a: FlowV, b: FlowV) -> bool {
    match (a, b) {
        (FlowV::Copy { dst, src }, FlowV::Copy { dst: d, src: s }) => became(unit, q, from, dst, d)
            && became(unit, q, from, src, s),
        (FlowV::AddrOfVar { dst, src }, FlowV::AddrOfVar { dst: d, src: s }) => became(
            unit,
            q,
            from,
            dst,
            d,
        ) && became(unit, q, from, src, s),
        (FlowV::Load { dst, src }, FlowV::Load { dst: d, src: s }) => became(unit, q, from, dst, d)
            && became(unit, q, from, src, s),
        (FlowV::Store { dst, src }, FlowV::Store { dst: d, src: s }) => became(
            unit,
            q,
            from,
            dst,
            d,
        ) && became(unit, q, from, src, s),
        (
            FlowV::GepField { dst, base, field, field_name },
            FlowV::GepField { dst: d, base: s, field: f, field_name: g },
        ) => became(unit, q, from, dst, d) && became(unit, q, from, base, s) && f == field && g
            == field_name,
        (FlowV::AddrOfFn { dst, callee }, FlowV::AddrOfFn { dst: d, callee: c }) => became(
            unit,
            q,
            from,
            dst,
            d,
        ),
        (
            FlowV::ArrayFnMember { array, callee },
            FlowV::ArrayFnMember { array: d, callee: c },
        ) => became(unit, q, from, array, d),
        (
            FlowV::CallReturn { dst, callee_name },
            FlowV::CallReturn { dst: d, callee_name: c },
        ) => became(unit, q, from, dst, d) && c == callee_name,
        (
            FlowV::CallReturnIndirect { dst, callee_var },
            FlowV::CallReturnIndirect { dst: d, callee_var: c },
        ) => became(unit, q, from, dst, d) && became(unit, q, from, callee_var, c),
        (FlowV::NewHeap { dst }, FlowV::NewHeap { dst: d }) => became(unit, q, from, dst, d),
        (FlowV::StringConst { dst, value }, FlowV::StringConst { dst: d, value: c }) => became(
            unit,
            q,
            from,
            dst,
            d,
        ) && c == value,
        _ => false,
    }
}

proof fn flows_come(m: MergeV, flows: Seq<FlowV>, i: int, n: int)
    requires
        0 <= i < n <= flows.len(),
        m.knows(vars_of(flows[i])),
    ensures
        exists|k: int|
            m.program.flow.len() <= k < m.flows(flows, n).len() && #[trigger] m.flows(flows, n)[k]
                == m.renumbered_flow(flows[i]),
        m.flows(flows, n).len() >= m.program.flow.len(),
        forall|k: int|
            0 <= k < m.program.flow.len() ==> #[trigger] m.flows(flows, n)[k] == m.program.flow[k],
    decreases n,
{
    flows_stay(m, flows, n);
    flows_stay(m, flows, n - 1);
    let before = m.flows(flows, n - 1);
    let after = m.flows(flows, n);
    if i < n - 1 {
        flows_come(m, flows, i, n - 1);
        let k = choose|k: int|
            m.program.flow.len() <= k < before.len() && #[trigger] before[k] == m.renumbered_flow(
                flows[i],
            );
        assert(after[k] == m.renumbered_flow(flows[i]));
    } else {
        assert(after[after.len() - 1] == m.renumbered_flow(flows[i]));
    }
}

proof fn flows_stay(m: MergeV, flows: Seq<FlowV>, n: int)
    ensures
        m.flows(flows, n).len() >= m.program.flow.len(),
        forall|k: int|
            0 <= k < m.program.flow.len() ==> #[trigger] m.flows(flows, n)[k] == m.program.flow[k],
    decreases n,
{
    if n > 0 {
        flows_stay(m, flows, n - 1);
    }
}

/// Every move of a source between its variables becomes a move of the program
/// between what these have become, and the moves that were there stay.
pub proof fn moves_are_brought(p: ProgramV, unit: UnitV, i: int)
    requires
        numbers_differ(unit.variables),
        p.merging(unit).dropped == Set::<u32>::empty(),
        0 <= i < unit.flow.len(),
        forall|j: int|
            0 <= j < vars_of(unit.flow[i]).len() ==> has_number(
                unit,
                #[trigger] vars_of(unit.flow[i])[j],
            ),
    ensures
        ({
            let q = p.merged(unit);
            let from = p.symbols.variables.len();
            &&& exists|k: int|
                p.flow.len() <= k < q.flow.len() && same_move(
                    unit,
                    q,
                    from,
                    unit.flow[i],
                    #[trigger] q.flow[k],
                )
            &&& forall|k: int| 0 <= k < p.flow.len() ==> #[trigger] q.flow[k] == p.flow[k]
        }),
{
    let q = p.merged(unit);
    let from = p.symbols.variables.len();
    variables_have_become(p, unit);
    let b = behind_sites(p, unit);
    let a = unit.flow[i];
    let vs = vars_of(a);
    assert(b.knows(vs)) by {
        assert forall|j: int| 0 <= j < vs.len() implies b.vars.contains_key(
            (#[trigger] vs[j]).0,
        ) by {
            assert(has_number(unit, vs[j]));
        }
    }
    flows_come(b, unit.flow, i, unit.flow.len() as int);
    let k = choose|k: int|
        b.program.flow.len() <= k < q.flow.len() && #[trigger] q.flow[k] == b.renumbered_flow(a);
    assert(has_number(unit, vs[0]));
    assert(became(unit, q, from, vs[0], VarId(b.vars[vs[0].0])));
    if vs.len() > 1 {
        assert(has_number(unit, vs[1]));
        assert(became(unit, q, from, vs[1], VarId(b.vars[vs[1].0])));
    }
    assert(same_move(unit, q, from, a, q.flow[k]));
}

/// Whether two calls are at one place of a file and under one name.
pub open spec fn same_place(m: MergeV, a: SiteV, b: SiteV) -> bool {
    m.file(a.span.file) == m.file(b.span.file) && a.span.line == b.span.line && a.span.col
        == b.span.col && a.callee_name == b.callee_name
}

proof fn sites_come(m: MergeV, sites: Seq<SiteV>, i: int, n: int)
    requires
        0 <= i < n <= sites.len(),
        m.dropped == Set::<u32>::empty(),
        forall|j: int| 0 <= j < i ==> !same_place(m, #[trigger] sites[j], sites[i]),
        !m.program.dedup.sites.contains_key(
            (
                m.file(sites[i].span.file).0,
                sites[i].span.line,
                sites[i].span.col,
                sites[i].callee_name,
            ),
        ),
    ensures
        exists|k: int|
            m.program.symbols.call_sites.len() <= k < m.with_sites(
                sites,
                n,
            ).program.symbols.call_sites.len() && is_renumbered(
                m,
                sites[i],
                #[trigger] m.with_sites(sites, n).program.symbols.call_sites[k],
            ),
    decreases n,
{
    sites_are_noted(m, sites, n - 1);
    let a = m.with_sites(sites, n - 1);
    let b = m.with_sites(sites, n);
    if i < n - 1 {
        sites_come(m, sites, i, n - 1);
        let k = choose|k: int|
            m.program.symbols.call_sites.len() <= k < a.program.symbols.call_sites.len()
                && is_renumbered(m, sites[i], #[trigger] a.program.symbols.call_sites[k]);
        assert(b.program.symbols.call_sites[k] == a.program.symbols.call_sites[k]);
    } else {
        let key = (
            m.file(sites[i].span.file).0,
            sites[i].span.line,
            sites[i].span.col,
            sites[i].callee_name,
        );
        assert(!a.program.dedup.sites.contains_key(key)) by {
            if a.program.dedup.sites.contains_key(key) {
                let j = choose|j: int| 0 <= j < n - 1 && key == #[trigger] key_of(m, sites[j]);
                assert(same_place(m, sites[j], sites[i]));
            }
        }
        let k = a.program.symbols.call_sites.len() as int;
        assert(b.program.symbols.call_sites[k] == a.renumbered_site(sites[i]));
        same_arguments(m, a, sites[i]);
        assert(is_renumbered(m, sites[i], b.program.symbols.call_sites[k]));
    }
}

spec fn key_of(m: MergeV, c: SiteV) -> (u32, u32, u32, Seq<char>) {
    (m.file(c.span.file).0, c.span.line, c.span.col, c.callee_name)
}

proof fn sites_are_noted(m: MergeV, sites: Seq<SiteV>, n: int)
    requires
        n <= sites.len(),
    ensures
        ({
            let b = m.with_sites(sites, n);
            &&& b.files == m.files
            &&& b.primary == m.primary
            &&& b.vars == m.vars
            &&& b.fns == m.fns
            &&& b.dropped == m.dropped
            &&& b.program.symbols.call_sites.len() >= m.program.symbols.call_sites.len()
            &&& forall|key: (u32, u32, u32, Seq<char>)| #[trigger]
                b.program.dedup.sites.contains_key(key) ==> m.program.dedup.sites.contains_key(key)
                    || exists|j: int| 0 <= j < n && key == #[trigger] key_of(m, sites[j])
        }),
    decreases n,
{
    if n > 0 {
        sites_are_noted(m, sites, n - 1);
        let a = m.with_sites(sites, n - 1);
        let b = m.with_sites(sites, n);
        assert forall|key: (u32, u32, u32, Seq<char>)| #[trigger]
            b.program.dedup.sites.contains_key(key) implies m.program.dedup.sites.contains_key(key)
            || exists|j: int| 0 <= j < n && key == #[trigger] key_of(m, sites[j]) by {
            if a.program.dedup.sites.contains_key(key) {
                if !m.program.dedup.sites.contains_key(key) {
                    let j = choose|j: int| 0 <= j < n - 1 && key == #[trigger] key_of(m, sites[j]);
                    assert(key == key_of(m, sites[j]));
                }
            } else {
                assert(key == key_of(m, sites[n - 1]));
            }
        }
    }
}

/// Whether a call is one of a source with its numbers in the program: the name,
/// the place and the kind stay, and every argument that is there stays in its
/// place.
spec fn is_renumbered(m: MergeV, a: SiteV, b: SiteV) -> bool {
    &&& b.callee_name == a.callee_name
    &&& b.is_direct == a.is_direct
    &&& b.receiver_class == a.receiver_class
    &&& b.span.line == a.span.line
    &&& b.span.col == a.span.col
    &&& b.var_args == m.var_args(a.var_args, a.var_args.len() as int)
    &&& a.callee_var matches Some(v) ==> b.callee_var == m.known_var(v)
}

proof fn same_arguments(m: MergeV, a: MergeV, c: SiteV)
    requires
        a.vars == m.vars,
        a.files == m.files,
        a.primary == m.primary,
    ensures
        a.var_args(c.var_args, c.var_args.len() as int) == m.var_args(
            c.var_args,
            c.var_args.len() as int,
        ),
{
    same_arguments_to(m, a, c.var_args, c.var_args.len() as int);
}

proof fn same_arguments_to(m: MergeV, a: MergeV, args: Seq<(u32, VarId)>, n: int)
    requires
        a.vars == m.vars,
    ensures
        a.var_args(args, n) == m.var_args(args, n),
    decreases n,
{
    if n > 0 {
        same_arguments_to(m, a, args, n - 1);
    }
}

proof fn arguments_stay(m: MergeV, args: Seq<(u32, VarId)>, i: int, n: int)
    requires
        0 <= i < n <= args.len(),
        m.vars.contains_key(args[i].1.0),
    ensures
        m.var_args(args, n).contains((args[i].0, VarId(m.vars[args[i].1.0]))),
    decreases n,
{
    let x = (args[i].0, VarId(m.vars[args[i].1.0]));
    let before = m.var_args(args, n - 1);
    let after = m.var_args(args, n);
    if i < n - 1 {
        arguments_stay(m, args, i, n - 1);
        let k = choose|k: int| 0 <= k < before.len() && before[k] == x;
        assert(after[k] == x);
    } else {
        assert(after[after.len() - 1] == x);
    }
}

/// Whether a call of a source has become one of a program.
pub open spec fn same_call_brought(unit: UnitV, q: ProgramV, from: nat, a: SiteV, b: SiteV) -> bool {
    &&& b.callee_name == a.callee_name
    &&& b.is_direct == a.is_direct
    &&& b.receiver_class == a.receiver_class
    &&& b.span.line == a.span.line
    &&& b.span.col == a.span.col
    &&& forall|j: int|
        0 <= j < a.var_args.len() && has_number(unit, (#[trigger] a.var_args[j]).1)
            ==> has_argument(unit, q, from, b, a.var_args[j])
    &&& a.callee_var matches Some(v) ==> has_number(unit, v) ==> b.callee_var is Some && became(
        unit,
        q,
        from,
        v,
        b.callee_var->0,
    )
}

/// Whether a call has what an argument of a source has become in its place.
pub open spec fn has_argument(
    unit: UnitV,
    q: ProgramV,
    from: nat,
    b: SiteV,
    arg: (u32, VarId),
) -> bool {
    exists|w: VarId| #[trigger]
        b.var_args.contains((arg.0, w)) && became(unit, q, from, arg.1, w)
}

/// Every call of a source becomes one of the program, unless one at its place
/// and under its name is there already: under its name, at its place, and with
/// its arguments where they were.
pub proof fn calls_are_brought(p: ProgramV, unit: UnitV, i: int)
    requires
        numbers_differ(unit.variables),
        p.merging(unit).dropped == Set::<u32>::empty(),
        0 <= i < unit.call_sites.len(),
        forall|j: int|
            0 <= j < i ==> !same_place(
                p.merging(unit),
                #[trigger] unit.call_sites[j],
                unit.call_sites[i],
            ),
        !p.dedup.sites.contains_key(
            (
                p.merging(unit).file(unit.call_sites[i].span.file).0,
                unit.call_sites[i].span.line,
                unit.call_sites[i].span.col,
                unit.call_sites[i].callee_name,
            ),
        ),
    ensures
        ({
            let q = p.merged(unit);
            let from = p.symbols.variables.len();
            exists|k: int|
                p.symbols.call_sites.len() <= k < q.symbols.call_sites.len() && same_call_brought(
                    unit,
                    q,
                    from,
                    unit.call_sites[i],
                    #[trigger] q.symbols.call_sites[k],
                )
        }),
{
    let q = p.merged(unit);
    let from = p.symbols.variables.len();
    variables_have_become(p, unit);
    let m = before_sites(p, unit);
    let b = behind_sites(p, unit);
    let c = unit.call_sites[i];
    files_stay(p, unit);
    assert forall|j: int| 0 <= j < i implies !same_place(m, #[trigger] unit.call_sites[j], c) by {
        assert(!same_place(p.merging(unit), unit.call_sites[j], c));
    }
    sites_come(m, unit.call_sites, i, unit.call_sites.len() as int);
    let k = choose|k: int|
        m.program.symbols.call_sites.len() <= k < b.program.symbols.call_sites.len()
            && is_renumbered(m, c, #[trigger] b.program.symbols.call_sites[k]);
    let d = q.symbols.call_sites[k];
    assert forall|j: int|
        0 <= j < c.var_args.len() && has_number(unit, (#[trigger] c.var_args[j]).1) implies has_argument(
        unit,
        q,
        from,
        d,
        c.var_args[j],
    ) by {
        let v = c.var_args[j].1;
        let w = VarId(m.vars[v.0]);
        arguments_stay(m, c.var_args, j, c.var_args.len() as int);
        assert(became(unit, q, from, v, w));
        assert(d.var_args.contains((c.var_args[j].0, w)));
    }
    if let Some(v) = c.callee_var {
        if has_number(unit, v) {
            assert(became(unit, q, from, v, VarId(m.vars[v.0])));
        }
    }
    assert(same_call_brought(unit, q, from, c, d));
}

proof fn files_stay(p: ProgramV, unit: UnitV)
    ensures
        before_sites(p, unit).files == p.merging(unit).files,
        before_sites(p, unit).primary == p.merging(unit).primary,
{
    let m0 = p.merging(unit);
    vars_keep_files(m0, unit, unit.variables.len() as int);
    let m1 = m0.with_vars(unit.variables, unit.variables.len() as int);
    fns_keep_files(m1, unit, unit.functions.len() as int);
}

proof fn vars_keep_files(m: MergeV, unit: UnitV, n: int)
    ensures
        m.with_vars(unit.variables, n).files == m.files,
        m.with_vars(unit.variables, n).primary == m.primary,
    decreases n,
{
    if n > 0 {
        vars_keep_files(m, unit, n - 1);
    }
}

proof fn fns_keep_files(m: MergeV, unit: UnitV, n: int)
    ensures
        m.with_fns(unit.functions, n).files == m.files,
        m.with_fns(unit.functions, n).primary == m.primary,
    decreases n,
{
    if n > 0 {
        fns_keep_files(m, unit, n - 1);
    }
}

} // verus!
