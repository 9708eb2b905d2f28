//! That a project has one program, however often it is built.

use crate::index::discover::{in_order, order_of_paths_is_strict};
use crate::index::lower::unit::{is_unit_of, language_of, unit_of, unit_program};
use crate::index::merge::UnitV;
use crate::index::parse::{tree_of, ParsedV};
use crate::index::project::{
    are_units_of, canonicals, discovered, finished, is_plan_for, planned, PlanV,
};
use crate::index::syntax::{shaped, shapes_are_one};
use crate::preproc::options::canonical_of;
use crate::preproc::run::{file_result, ResultV};
use crate::preproc::state::{ErrorV, OptionsV};
use vstd::prelude::*;

verus! {

/// A collection of paths has one order.
pub proof fn orders_are_one(a: Seq<Seq<char>>, b: Seq<Seq<char>>)
    requires
        in_order(a),
        in_order(b),
        a.to_multiset() == b.to_multiset(),
    ensures
        a == b,
    decreases a.len(),
{
    a.to_multiset_ensures();
    b.to_multiset_ensures();
    let n = a.len() as int;
    assert(b.len() == n);
    if n > 0 {
        let x = a[n - 1];
        let y = b[n - 1];
        assert(a.contains(x));
        assert(b.contains(y));
        assert(a.to_multiset().count(y) > 0);
        assert(b.to_multiset().count(x) > 0);
        let i = choose|i: int| 0 <= i < n && a[i] == y;
        let j = choose|j: int| 0 <= j < n && b[j] == x;
        if i < n - 1 && j < n - 1 {
            order_of_paths_is_strict(a[i], a[n - 1]);
        }
        assert(x == y);
        assert(a.remove(n - 1) =~= a.drop_last());
        assert(b.remove(n - 1) =~= b.drop_last());
        orders_are_one(a.drop_last(), b.drop_last());
        assert(a =~= a.drop_last().push(x));
        assert(b =~= b.drop_last().push(y));
    } else {
        assert(a =~= b);
    }
}

/// There is one plan for the files of a project.
pub proof fn plans_are_one(
    a: PlanV,
    b: PlanV,
    root: Seq<char>,
    files: Seq<Seq<char>>,
    o: OptionsV,
)
    requires
        is_plan_for(a, root, files, o),
        is_plan_for(b, root, files, o),
    ensures
        a == b,
{
    let (u, h) = choose|u: Seq<Seq<char>>, h: Seq<Seq<char>>| #[trigger]
        discovered(files, u, h) && a == planned(
            root,
            canonicals(o.cfg.tree, u),
            canonicals(o.cfg.tree, h),
            o,
        );
    let (v, k) = choose|v: Seq<Seq<char>>, k: Seq<Seq<char>>| #[trigger]
        discovered(files, v, k) && b == planned(
            root,
            canonicals(o.cfg.tree, v),
            canonicals(o.cfg.tree, k),
            o,
        );
    orders_are_one(u, v);
    orders_are_one(h, k);
}

/// A source contributes one thing: what the preprocessor and the parser make of
/// it determines it.
pub proof fn contributions_are_one(
    a: UnitV,
    b: UnitV,
    root: Seq<char>,
    path: Seq<char>,
    primary: Seq<char>,
    pre: Result<ResultV, ErrorV>,
)
    requires
        is_unit_of(a, root, path, primary, pre),
        is_unit_of(b, root, path, primary, pre),
    ensures
        a == b,
{
    match pre {
        Ok(res) => {
            match tree_of(res.output, language_of(path)) {
                Some(raw) => {
                    let x = choose|x: ParsedV|
                        x.source == res.output && x.has_errors == raw.error && shaped(
                            x.tree,
                            raw,
                            res.output,
                        ) && a == #[trigger] unit_of(
                            path,
                            unit_program(root, path, primary, x, res.line_map),
                        );
                    let y = choose|y: ParsedV|
                        y.source == res.output && y.has_errors == raw.error && shaped(
                            y.tree,
                            raw,
                            res.output,
                        ) && b == #[trigger] unit_of(
                            path,
                            unit_program(root, path, primary, y, res.line_map),
                        );
                    shapes_are_one(x.tree, y.tree, raw, res.output);
                    assert(x == y);
                },
                None => {},
            }
        },
        Err(_) => {},
    }
}

/// Two builds of one project are equal: they have the same plan, their sources
/// contribute the same, and they come to the same program.
pub proof fn builds_are_equal(
    plan: PlanV,
    units: Seq<UnitV>,
    other_plan: PlanV,
    other_units: Seq<UnitV>,
    root: Seq<char>,
    files: Seq<Seq<char>>,
    o: OptionsV,
)
    requires
        is_plan_for(plan, root, files, o),
        are_units_of(units, plan),
        is_plan_for(other_plan, root, files, o),
        are_units_of(other_units, other_plan),
    ensures
        plan == other_plan,
        units == other_units,
        finished(plan, units) == finished(other_plan, other_units),
{
    plans_are_one(plan, other_plan, root, files, o);
    assert forall|i: int| 0 <= i < units.len() implies units[i] == other_units[i] by {
        contributions_are_one(
            units[i],
            other_units[i],
            plan.root,
            plan.sources[i],
            canonical_of(plan.opts.cfg.tree, plan.sources[i]),
            file_result(plan.sources[i], plan.opts),
        );
    }
    assert(units =~= other_units);
}

} // verus!
