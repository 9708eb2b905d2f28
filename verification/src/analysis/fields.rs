//! What holds of fields, and of lookups by name, once a graph is solved.

use crate::analysis::constraints::{ConstraintKind, ConstraintV, LocKind};
use crate::analysis::growth::{holds, listed_holds, merged_grows, spread_grows, waits};
use crate::analysis::held::{below, inside, solved_pag, start_inside, step_inside};
use crate::analysis::laws::{
    before_calls, before_calls_sound, indices_keep, loaded_in, may_hold, on_track, popped,
    run_keeps, solved_graph, start_keeps, step_keeps, taken_facts,
};
use crate::analysis::models::ModelV;
use crate::analysis::pag::{list_of, PagV};
use crate::analysis::places::placed;
use crate::analysis::progress::{
    extended, extended_refl, extended_trans, first_look_grows, run_grown, run_refl, run_sound,
    run_spread, run_trans, with_addresses_grows, with_array_members_grows, with_copies_grows,
    with_direct_calls_grows, with_function_field_grows, with_gep_grows, with_gep_locs_grows,
    with_geps_grows, with_indirect_grows, with_loads_grows, with_looked_up_grows,
    with_lookups_grows, with_named_grows, with_object_field_grows, with_stores_grows,
    with_var_summary_grows,
};
use crate::analysis::solver::{LookV, RunV};
use crate::ir::ids::{FieldId, FnId, LocId};
use crate::ir::program::ProgramV;
use crate::ir::symbol::{FnV, SiteV};
use vstd::prelude::*;

verus! {

/// Whether a place of a graph is an object with a field, of the name that is
/// asked for.
pub open spec fn has_field(
    g: PagV,
    p: ProgramV,
    l: u32,
    field: FieldId,
    name: Option<Seq<char>>,
) -> bool {
    &&& g.location(LocId(l)) is Some
    &&& g.function_at(LocId(l)) is None
    &&& match g.object_type(p, LocId(l)) {
        Some(owner) => match p.types.field(owner, field) {
            Some(fl) => name is Some ==> name->0 == fl.name,
            None => false,
        },
        None => false,
    }
}

/// Whether a node holds the place of a field of an object: its own, or, too
/// deep inside an object, that of all objects of the type.
pub open spec fn holds_field(r: RunV, p: ProgramV, n: u32, l: u32, field: FieldId) -> bool {
    ||| {
        &&& r.pag.field_loc.contains_key((l, field.0))
        &&& holds(r.st, n, r.pag.field_loc[(l, field.0)])
    }
    ||| match r.pag.object_type(p, LocId(l)) {
        Some(owner) => {
            &&& r.pag.field_summary.contains_key((owner.0, field.0))
            &&& holds(r.st, n, r.pag.field_summary[(owner.0, field.0)])
        },
        None => false,
    }
}

/// Whether a place of a graph is a string that names a function.
pub open spec fn names_function(g: PagV, l: u32, f: FnV) -> bool {
    &&& match g.location(LocId(l)) {
        Some(loc) => loc.kind == LocKind::StringLit && loc.desc == f.name,
        None => false,
    }
    &&& g.fn_location(f.id) is Some
}

/// The place of a function that has one.
pub open spec fn function_place(g: PagV, f: FnId) -> u32 {
    match g.fn_location(f) {
        Some(l) => l.0,
        None => 0,
    }
}

/// The fields of the places that the base of an access holds have been
/// reached, or the place is news.
pub open spec fn accessed(r: RunV, p: ProgramV, c: ConstraintV) -> bool {
    c.field is Some ==> forall|l: u32| #[trigger]
        holds(r.st, c.src.0, l) && has_field(r.pag, p, l, c.field->0, c.field_name) ==> holds_field(
            r,
            p,
            c.dst.0,
            l,
            c.field->0,
        ) || waits(r.st, c.src.0, l)
}

/// The functions that the strings name that a lookup is given have been found,
/// or the string is news.
pub open spec fn looked_up(r: RunV, p: ProgramV, c: ConstraintV) -> bool {
    forall|l: u32, k: int|
        #![trigger holds(r.st, c.src.0, l), p.symbols.functions[k]]
        holds(r.st, c.src.0, l) && 0 <= k < p.symbols.functions.len() && names_function(
            r.pag,
            l,
            p.symbols.functions[k],
        ) ==> holds(r.st, c.dst.0, function_place(r.pag, p.symbols.functions[k].id)) || waits(
            r.st,
            c.src.0,
            l,
        )
}

/// What a constraint on fields or names asks for has been done, or is still to
/// be done.
pub open spec fn reached(r: RunV, p: ProgramV, c: ConstraintV) -> bool {
    match c.kind {
        ConstraintKind::Gep => accessed(r, p, c),
        ConstraintKind::Dlsym => looked_up(r, p, c),
        _ => true,
    }
}

/// Whether the constraint at a position is listed under its source.
pub open spec fn listed(g: PagV, i: int) -> bool {
    let c = g.constraints[i];
    match c.kind {
        ConstraintKind::Gep => list_of(g.indices.gep_src, c.src.0).contains(i as usize),
        ConstraintKind::Dlsym => list_of(g.indices.dlsym_src, c.src.0).contains(i as usize),
        _ => true,
    }
}

spec fn fields_on_track(r: RunV, g: PagV, p: ProgramV) -> bool {
    forall|i: int|
        0 <= i < g.constraints.len() && listed(g, i) ==> reached(
            r,
            p,
            #[trigger] g.constraints[i],
        )
}

proof fn field_stays(a: RunV, b: RunV, p: ProgramV, n: u32, l: u32, field: FieldId, from: Set<u32>)
    requires
        run_grown(a, b, from),
        holds_field(a, p, n, l, field),
        a.pag.location(LocId(l)) is Some,
    ensures
        holds_field(b, p, n, l, field),
{
    assert(b.pag.location(LocId(l)) == a.pag.location(LocId(l)));
    let k = (l, field.0);
    if a.pag.field_loc.contains_key(k) && holds(a.st, n, a.pag.field_loc[k]) {
        assert(b.pag.field_loc.contains_key(k));
        assert(holds(b.st, n, b.pag.field_loc[k]));
    } else {
        let owner = a.pag.object_type(p, LocId(l))->0;
        let m = (owner.0, field.0);
        assert(a.pag.field_summary.contains_key(m));
        assert(b.pag.field_summary.contains_key(m));
        assert(holds(b.st, n, b.pag.field_summary[m]));
    }
}

/// What is known of a place stays so.
proof fn place_stays(a: PagV, b: PagV, p: ProgramV, l: u32)
    requires
        extended(a, b),
        l < a.locations.len(),
    ensures
        b.location(LocId(l)) == a.location(LocId(l)),
        forall|field: FieldId, name: Option<Seq<char>>| #[trigger]
            has_field(b, p, l, field, name) == has_field(a, p, l, field, name),
        forall|f: FnV| #[trigger] names_function(b, l, f) == names_function(a, l, f),
        forall|f: FnId| #[trigger] function_place(b, f) == function_place(a, f),
{
    assert(a.location(LocId(l)) is Some);
    assert(b.location(LocId(l)) == a.location(LocId(l)));
    assert(b.function_at(LocId(l)) == a.function_at(LocId(l)));
}

/// What a node holds is a place of the graph.
proof fn held_is_placed(r: RunV, n: u32, l: u32)
    requires
        inside(r),
        holds(r.st, n, l),
    ensures
        l < r.pag.locations.len(),
{
    assert(below(r.st.pts_of(n), r.pag.locations.len()));
}

proof fn fields_kept(a: RunV, b: RunV, g: PagV, p: ProgramV)
    requires
        run_grown(a, b, loaded_in(g)),
        inside(a),
        fields_on_track(a, g, p),
    ensures
        fields_on_track(b, g, p),
{
    let from = loaded_in(g);
    assert forall|i: int| 0 <= i < g.constraints.len() && listed(g, i) implies reached(
        b,
        p,
        #[trigger] g.constraints[i],
    ) by {
        let c = g.constraints[i];
        assert(reached(a, p, c));
        match c.kind {
            ConstraintKind::Gep => {
                if c.field is Some {
                    assert forall|l: u32| #[trigger]
                        holds(b.st, c.src.0, l) && has_field(
                            b.pag,
                            p,
                            l,
                            c.field->0,
                            c.field_name,
                        ) implies holds_field(b, p, c.dst.0, l, c.field->0) || waits(
                        b.st,
                        c.src.0,
                        l,
                    ) by {
                        if holds(a.st, c.src.0, l) {
                            if waits(a.st, c.src.0, l) {
                            } else {
                                held_is_placed(a, c.src.0, l);
                                place_stays(a.pag, b.pag, p, l);
                                field_stays(a, b, p, c.dst.0, l, c.field->0, from);
                            }
                        }
                    }
                }
            },
            ConstraintKind::Dlsym => {
                assert forall|l: u32, k: int|
                    #![trigger holds(b.st, c.src.0, l), p.symbols.functions[k]]
                    holds(b.st, c.src.0, l) && 0 <= k < p.symbols.functions.len()
                        && names_function(b.pag, l, p.symbols.functions[k]) implies holds(
                    b.st,
                    c.dst.0,
                    function_place(b.pag, p.symbols.functions[k].id),
                ) || waits(b.st, c.src.0, l) by {
                    if holds(a.st, c.src.0, l) {
                        if waits(a.st, c.src.0, l) {
                        } else {
                            held_is_placed(a, c.src.0, l);
                            place_stays(a.pag, b.pag, p, l);
                            assert(holds(
                                a.st,
                                c.dst.0,
                                function_place(a.pag, p.symbols.functions[k].id),
                            ));
                        }
                    }
                }
            },
            _ => {},
        }
    }
}

/// The access to a field of one object.
proof fn one_access(a: RunV, p: ProgramV, dst: u32, field: FieldId, l: u32, loaded: Set<u32>)
    requires
        run_sound(a, loaded),
        has_field(a.pag, p, l, field, None),
    ensures
        holds_field(a.with_object_field(p, dst, field, l).0, p, dst, l, field),
{
    let (q, fl) = a.pag.ensured_field(p, LocId(l), field);
    let end = a.with_object_field(p, dst, field, l).0;
    with_object_field_grows(a, p, dst, field, l, loaded);
    let place = fl->0;
    assert(fl is Some);
    assert(holds(end.st, dst, place.0)) by {
        let st = match q.summary_of(place) {
            Some(sum) => {
                let locs = seq![place.0, sum.0];
                assert(locs[0] == place.0);
                assert(locs.contains(place.0));
                let s1 = a.st.spread(dst, locs);
                spread_grows(a.st, dst, locs, loaded);
                assert(holds(s1, dst, place.0));
                let s2 = s1.merged(dst, place.0);
                merged_grows(s1, dst, place.0, loaded);
                merged_grows(s2, dst, sum.0, loaded);
                s2.merged(dst, sum.0)
            },
            None => {
                let locs = seq![place.0];
                assert(locs[0] == place.0);
                assert(locs.contains(place.0));
                let s1 = a.st.spread(dst, locs);
                spread_grows(a.st, dst, locs, loaded);
                assert(holds(s1, dst, place.0));
                merged_grows(s1, dst, place.0, loaded);
                s1.merged(dst, place.0)
            },
        };
        assert(holds(st, dst, place.0));
        let r = RunV { pag: q, st, ..a };
        match q.location(LocId(l)) {
            Some(loc) => {
                match loc.var {
                    Some(owner) => {
                        with_array_members_grows(r, owner, dst, loaded);
                    },
                    None => {},
                }
            },
            None => {},
        }
    }
    assert(end.pag == q);
    assert(end.pag.location(LocId(l)) == a.pag.location(LocId(l)));
}

proof fn all_accesses(
    a: RunV,
    p: ProgramV,
    c: ConstraintV,
    field: FieldId,
    delta: Seq<u32>,
    k: int,
    loaded: Set<u32>,
)
    requires
        run_sound(a, loaded),
        0 <= k <= delta.len(),
    ensures
        forall|j: int|
            0 <= j < k && has_field(
                a.pag,
                p,
                #[trigger] delta[j],
                field,
                c.field_name,
            ) ==> holds_field(
                a.with_gep_locs(p, c, field, delta, k).0,
                p,
                c.dst.0,
                delta[j],
                field,
            ),
    decreases k,
{
    if k > 0 {
        all_accesses(a, p, c, field, delta, k - 1, loaded);
        let r = a.with_gep_locs(p, c, field, delta, k - 1).0;
        let b = a.with_gep_locs(p, c, field, delta, k).0;
        with_gep_locs_grows(a, p, c, field, delta, k - 1, loaded);
        let last = delta[k - 1];
        run_refl(r, loaded);
        assert(run_grown(r, b, loaded)) by {
            if r.field_fits(p, last, field, c.field_name) {
                match r.pag.function_at(LocId(last)) {
                    Some(f) => {
                        with_function_field_grows(
                            r,
                            p,
                            c.src,
                            c.dst.0,
                            field,
                            last,
                            f,
                            loaded,
                        );
                    },
                    None => {
                        with_object_field_grows(r, p, c.dst.0, field, last, loaded);
                    },
                }
            }
        }
        assert forall|j: int|
            0 <= j < k && has_field(
                a.pag,
                p,
                #[trigger] delta[j],
                field,
                c.field_name,
            ) implies holds_field(b, p, c.dst.0, delta[j], field) by {
            let l = delta[j];
            assert(r.pag.location(LocId(l)) == a.pag.location(LocId(l)));
            if j < k - 1 {
                field_stays(r, b, p, c.dst.0, l, field, loaded);
            } else {
                assert(r.pag.function_at(LocId(l)) == a.pag.function_at(LocId(l)));
                assert(r.field_fits(p, l, field, c.field_name));
                one_access(r, p, c.dst.0, field, l, loaded);
            }
        }
    }
}

proof fn one_gep(a: RunV, look: LookV, i: usize, l: u32, loaded: Set<u32>)
    requires
        run_sound(a, loaded),
        a.pag.constraint(i) is Some,
        a.pag.constraint(i)->0.field is Some,
        look.delta.contains(l),
        has_field(
            a.pag,
            look.p,
            l,
            a.pag.constraint(i)->0.field->0,
            a.pag.constraint(i)->0.field_name,
        ),
    ensures
        holds_field(
            a.with_gep(look, i),
            look.p,
            a.pag.constraint(i)->0.dst.0,
            l,
            a.pag.constraint(i)->0.field->0,
        ),
{
    let c = a.pag.constraint(i)->0;
    let field = c.field->0;
    let n = look.delta.len() as int;
    let r = a.with_gep_locs(look.p, c, field, look.delta, n).0;
    all_accesses(a, look.p, c, field, look.delta, n, loaded);
    with_gep_locs_grows(a, look.p, c, field, look.delta, n, loaded);
    let j = choose|j: int| 0 <= j < look.delta.len() && look.delta[j] == l;
    assert(holds_field(r, look.p, c.dst.0, look.delta[j], field));
    with_var_summary_grows(r, look.p, c.src, field, c.dst.0, loaded);
    assert(r.pag.location(LocId(l)) == a.pag.location(LocId(l)));
    field_stays(
        r,
        r.with_var_summary(look.p, c.src, field, c.dst.0),
        look.p,
        c.dst.0,
        l,
        field,
        loaded,
    );
}

proof fn all_geps(a: RunV, look: LookV, idxs: Seq<usize>, n: int, g: PagV, i: int, l: u32)
    requires
        run_sound(a, loaded_in(g)),
        extended(g, a.pag),
        0 <= i < g.constraints.len() <= usize::MAX,
        g.constraints[i].field is Some,
        idxs.take(n).contains(i as usize),
        0 <= n <= idxs.len(),
        look.delta.contains(l),
        has_field(a.pag, look.p, l, g.constraints[i].field->0, g.constraints[i].field_name),
    ensures
        holds_field(
            a.with_geps(look, idxs, n),
            look.p,
            g.constraints[i].dst.0,
            l,
            g.constraints[i].field->0,
        ),
    decreases n,
{
    let from = loaded_in(g);
    let c = g.constraints[i];
    let field = c.field->0;
    let k = choose|k: int| 0 <= k < n && idxs.take(n)[k] == i as usize;
    assert(idxs[k] == i as usize);
    let r = a.with_geps(look, idxs, n - 1);
    let b = a.with_geps(look, idxs, n);
    with_geps_grows(a, look, idxs, n - 1, from);
    extended_trans(g, a.pag, r.pag);
    place_stays(a.pag, r.pag, look.p, l);
    if k < n - 1 {
        assert(idxs.take(n - 1)[k] == i as usize);
        all_geps(a, look, idxs, n - 1, g, i, l);
        with_gep_grows(r, look, idxs[n - 1], from);
        field_stays(r, b, look.p, c.dst.0, l, field, from);
    } else {
        constraint_of(g, r.pag, i);
        one_gep(r, look, idxs[n - 1], l, from);
    }
}

proof fn constraint_of(g: PagV, h: PagV, i: int)
    requires
        extended(g, h),
        0 <= i < g.constraints.len() <= usize::MAX,
    ensures
        h.constraint(i as usize) == Some(g.constraints[i]),
{
    assert(h.constraints.take(g.constraints.len() as int)[i] == g.constraints[i]);
}

proof fn one_name(a: RunV, fns: Seq<FnV>, name: Seq<char>, dst: u32, n: int, k: int, loaded: Set<u32>)
    requires
        run_sound(a, loaded),
        0 <= k < n <= fns.len(),
        fns[k].name == name,
        a.pag.fn_location(fns[k].id) is Some,
    ensures
        holds(a.with_named(fns, name, dst, n).st, dst, function_place(a.pag, fns[k].id)),
    decreases n,
{
    let r = a.with_named(fns, name, dst, n - 1);
    let b = a.with_named(fns, name, dst, n);
    with_named_grows(a, fns, name, dst, n - 1, loaded);
    let l = function_place(a.pag, fns[k].id);
    if k < n - 1 {
        one_name(a, fns, name, dst, n - 1, k, loaded);
        assert(holds(r.st, dst, l));
        if fns[n - 1].name == name {
            match r.pag.fn_location(fns[n - 1].id) {
                Some(x) => {
                    run_spread(r, dst, seq![x.0], loaded);
                },
                None => {},
            }
        }
    } else {
        assert(r.pag.fn_location(fns[k].id) == a.pag.fn_location(fns[k].id));
        spread_grows(r.st, dst, seq![l], loaded);
        assert(seq![l][0] == l);
        assert(seq![l].contains(l));
    }
}

proof fn one_string(
    a: RunV,
    p: ProgramV,
    dst: u32,
    delta: Seq<u32>,
    n: int,
    j: int,
    k: int,
    loaded: Set<u32>,
)
    requires
        run_sound(a, loaded),
        0 <= j < n <= delta.len(),
        0 <= k < p.symbols.functions.len(),
        names_function(a.pag, delta[j], p.symbols.functions[k]),
    ensures
        holds(
            a.with_looked_up(p, dst, delta, n).st,
            dst,
            function_place(a.pag, p.symbols.functions[k].id),
        ),
    decreases n,
{
    let fns = p.symbols.functions;
    let r = a.with_looked_up(p, dst, delta, n - 1);
    with_looked_up_grows(a, p, dst, delta, n - 1, loaded);
    let l = function_place(a.pag, fns[k].id);
    assert(r.pag.location(LocId(delta[j])) == a.pag.location(LocId(delta[j])));
    assert(r.pag.fn_location(fns[k].id) == a.pag.fn_location(fns[k].id));
    if j < n - 1 {
        one_string(a, p, dst, delta, n - 1, j, k, loaded);
        assert(holds(r.st, dst, l));
        match r.pag.location(LocId(delta[n - 1])) {
            Some(loc) => {
                with_named_grows(r, fns, loc.desc, dst, fns.len() as int, loaded);
            },
            None => {},
        }
    } else {
        let loc = r.pag.location(LocId(delta[j]))->0;
        one_name(r, fns, loc.desc, dst, fns.len() as int, k, loaded);
    }
}

proof fn all_lookups(a: RunV, look: LookV, idxs: Seq<usize>, n: int, g: PagV, i: int, l: u32, k: int)
    requires
        run_sound(a, loaded_in(g)),
        extended(g, a.pag),
        0 <= i < g.constraints.len() <= usize::MAX,
        idxs.take(n).contains(i as usize),
        0 <= n <= idxs.len(),
        look.delta.contains(l),
        0 <= k < look.p.symbols.functions.len(),
        names_function(a.pag, l, look.p.symbols.functions[k]),
    ensures
        holds(
            a.with_lookups(look, idxs, n).st,
            g.constraints[i].dst.0,
            function_place(a.pag, look.p.symbols.functions[k].id),
        ),
    decreases n,
{
    let from = loaded_in(g);
    let c = g.constraints[i];
    let f = look.p.symbols.functions[k];
    let m = choose|m: int| 0 <= m < n && idxs.take(n)[m] == i as usize;
    assert(idxs[m] == i as usize);
    let r = a.with_lookups(look, idxs, n - 1);
    with_lookups_grows(a, look, idxs, n - 1, from);
    extended_trans(g, a.pag, r.pag);
    place_stays(a.pag, r.pag, look.p, l);
    if m < n - 1 {
        assert(idxs.take(n - 1)[m] == i as usize);
        all_lookups(a, look, idxs, n - 1, g, i, l, k);
        assert(holds(r.st, c.dst.0, function_place(a.pag, f.id)));
        match r.pag.constraint(idxs[n - 1]) {
            Some(x) => {
                with_looked_up_grows(
                    r,
                    look.p,
                    x.dst.0,
                    look.delta,
                    look.delta.len() as int,
                    from,
                );
            },
            None => {},
        }
    } else {
        constraint_of(g, r.pag, i);
        let j = choose|j: int| 0 <= j < look.delta.len() && look.delta[j] == l;
        one_string(r, look.p, c.dst.0, look.delta, look.delta.len() as int, j, k, from);
    }
}

/// What a node has gained travels on along fields and names.
proof fn travels(a: RunV, look: LookV, g: PagV)
    requires
        run_sound(a, loaded_in(g)),
        extended(g, a.pag),
        g.constraints.len() <= usize::MAX,
    ensures
        ({
            let b = a.travelled(look);
            &&& run_grown(a, b, loaded_in(g))
            &&& forall|i: int, l: u32|
                0 <= i < g.constraints.len() && listed(g, i) && (
                #[trigger] g.constraints[i]).kind == ConstraintKind::Gep && g.constraints[i].src.0
                    == look.node && g.constraints[i].field is Some && #[trigger] look.delta.contains(
                    l,
                ) && has_field(
                    a.pag,
                    look.p,
                    l,
                    g.constraints[i].field->0,
                    g.constraints[i].field_name,
                ) ==> holds_field(
                    b,
                    look.p,
                    g.constraints[i].dst.0,
                    l,
                    g.constraints[i].field->0,
                )
            &&& forall|i: int, l: u32, k: int|
                #![trigger g.constraints[i], look.delta.contains(l), look.p.symbols.functions[k]]
                0 <= i < g.constraints.len() && listed(g, i) && g.constraints[i].kind
                    == ConstraintKind::Dlsym && g.constraints[i].src.0 == look.node
                    && look.delta.contains(l) && 0 <= k < look.p.symbols.functions.len()
                    && names_function(a.pag, l, look.p.symbols.functions[k]) ==> holds(
                    b.st,
                    g.constraints[i].dst.0,
                    function_place(a.pag, look.p.symbols.functions[k].id),
                )
        }),
{
    let from = loaded_in(g);
    let node = look.node;
    let delta = look.delta;
    let b = a.travelled(look);
    let copies = list_of(a.pag.indices.copy_src, node);
    let r1 = a.with_copies(delta, copies, copies.len() as int);
    with_copies_grows(a, delta, copies, copies.len() as int, from);
    let addrs = list_of(r1.pag.indices.addr_of_dst, node);
    let r2 = r1.with_addresses(node, addrs, addrs.len() as int);
    with_addresses_grows(r1, node, addrs, addrs.len() as int, from);
    run_trans(a, r1, r2, from);
    let loads = list_of(r2.pag.indices.load_src, node);
    let r3 = r2.with_loads(delta, loads, loads.len() as int);
    with_loads_grows(r2, delta, loads, loads.len() as int, from);
    run_trans(a, r2, r3, from);
    let into = list_of(r3.pag.indices.store_dst, node);
    let r4 = r3.with_stores(Some(delta), into, into.len() as int);
    with_stores_grows(r3, Some(delta), into, into.len() as int, from);
    run_trans(a, r3, r4, from);
    let out = list_of(r4.pag.indices.store_src, node);
    let r5 = r4.with_stores(None, out, out.len() as int);
    with_stores_grows(r4, None, out, out.len() as int, from);
    run_trans(a, r4, r5, from);
    let geps = list_of(r5.pag.indices.gep_src, node);
    let r6 = r5.with_geps(look, geps, geps.len() as int);
    with_geps_grows(r5, look, geps, geps.len() as int, from);
    run_trans(a, r5, r6, from);
    let lookups = list_of(r6.pag.indices.dlsym_src, node);
    let r7 = r6.with_lookups(look, lookups, lookups.len() as int);
    with_lookups_grows(r6, look, lookups, lookups.len() as int, from);
    run_trans(a, r6, r7, from);
    let calls = list_of(r7.pag.indices.indirect_by_target, node);
    with_indirect_grows(r7, look, calls, calls.len() as int, from);
    run_trans(a, r7, b, from);
    run_trans(r6, r7, b, from);
    extended_trans(g, a.pag, r5.pag);
    extended_trans(g, a.pag, r6.pag);
    assert(geps.take(geps.len() as int) =~= geps);
    assert(lookups.take(lookups.len() as int) =~= lookups);
    assert forall|i: int, l: u32|
        0 <= i < g.constraints.len() && listed(g, i) && (#[trigger] g.constraints[i]).kind
            == ConstraintKind::Gep && g.constraints[i].src.0 == look.node
            && g.constraints[i].field is Some && #[trigger] look.delta.contains(l) && has_field(
            a.pag,
            look.p,
            l,
            g.constraints[i].field->0,
            g.constraints[i].field_name,
        ) implies holds_field(b, look.p, g.constraints[i].dst.0, l, g.constraints[i].field->0) by {
        let c = g.constraints[i];
        assert(geps.contains(i as usize));
        place_stays(a.pag, r5.pag, look.p, l);
        all_geps(r5, look, geps, geps.len() as int, g, i, l);
        place_stays(a.pag, r6.pag, look.p, l);
        field_stays(r6, b, look.p, c.dst.0, l, c.field->0, from);
    }
    assert forall|i: int, l: u32, k: int|
        #![trigger g.constraints[i], look.delta.contains(l), look.p.symbols.functions[k]]
        0 <= i < g.constraints.len() && listed(g, i) && g.constraints[i].kind
            == ConstraintKind::Dlsym && g.constraints[i].src.0 == look.node && look.delta.contains(
            l,
        ) && 0 <= k < look.p.symbols.functions.len() && names_function(
            a.pag,
            l,
            look.p.symbols.functions[k],
        ) implies holds(
        b.st,
        g.constraints[i].dst.0,
        function_place(a.pag, look.p.symbols.functions[k].id),
    ) by {
        assert(lookups.contains(i as usize));
        place_stays(a.pag, r6.pag, look.p, l);
        all_lookups(r6, look, lookups, lookups.len() as int, g, i, l, k);
        assert(holds(
            r7.st,
            g.constraints[i].dst.0,
            function_place(a.pag, look.p.symbols.functions[k].id),
        ));
    }
}

proof fn step_reaches(r: RunV, p: ProgramV, models: Seq<ModelV>, g: PagV)
    requires
        run_sound(r, loaded_in(g)),
        extended(g, r.pag),
        g.constraints.len() <= usize::MAX,
        fields_on_track(r, g, p),
        inside(r),
        r.st.worklist.len() > 0,
    ensures
        fields_on_track(r.step(p, models), g, p),
{
    let from = loaded_in(g);
    let node = r.st.worklist.last();
    let st = popped(r.st);
    let delta = list_of(st.delta, node);
    let r0 = r.with_st(st.taken(node));
    taken_facts(r.st);
    assert(run_sound(r0, from));
    let b = r.step(p, models);
    let look = LookV { p, models, node, delta };
    if delta.len() == 0 {
        first_look_grows(r0, p, node, from);
        assert forall|l: u32| !(#[trigger] waits(r.st, node, l)) by {
            if waits(r.st, node, l) {
                assert(list_of(r.st.delta, node).contains(l));
            }
        }
    } else {
        travels(r0, look, g);
    }
    assert(run_grown(r0, b, from));
    assert forall|i: int| 0 <= i < g.constraints.len() && listed(g, i) implies reached(
        b,
        p,
        #[trigger] g.constraints[i],
    ) by {
        let c = g.constraints[i];
        assert(reached(r, p, c));
        match c.kind {
            ConstraintKind::Gep => {
                if c.field is Some {
                    let field = c.field->0;
                    assert forall|l: u32| #[trigger]
                        holds(b.st, c.src.0, l) && has_field(
                            b.pag,
                            p,
                            l,
                            field,
                            c.field_name,
                        ) implies holds_field(b, p, c.dst.0, l, field) || waits(b.st, c.src.0, l) by {
                        if holds(r0.st, c.src.0, l) {
                            assert(holds(r.st, c.src.0, l));
                            held_is_placed(r, c.src.0, l);
                            place_stays(r0.pag, b.pag, p, l);
                            if waits(r.st, c.src.0, l) {
                                if c.src.0 == node {
                                    assert(delta.contains(l));
                                } else {
                                    assert(waits(r0.st, c.src.0, l));
                                }
                            } else {
                                assert(holds_field(r, p, c.dst.0, l, field));
                                assert(holds_field(r0, p, c.dst.0, l, field));
                                field_stays(r0, b, p, c.dst.0, l, field, from);
                            }
                        }
                    }
                }
            },
            ConstraintKind::Dlsym => {
                assert forall|l: u32, k: int|
                    #![trigger holds(b.st, c.src.0, l), p.symbols.functions[k]]
                    holds(b.st, c.src.0, l) && 0 <= k < p.symbols.functions.len()
                        && names_function(b.pag, l, p.symbols.functions[k]) implies holds(
                    b.st,
                    c.dst.0,
                    function_place(b.pag, p.symbols.functions[k].id),
                ) || waits(b.st, c.src.0, l) by {
                    if holds(r0.st, c.src.0, l) {
                        assert(holds(r.st, c.src.0, l));
                        held_is_placed(r, c.src.0, l);
                        place_stays(r0.pag, b.pag, p, l);
                        let to = function_place(r.pag, p.symbols.functions[k].id);
                        if waits(r.st, c.src.0, l) {
                            if c.src.0 == node {
                                assert(delta.contains(l));
                            } else {
                                assert(waits(r0.st, c.src.0, l));
                            }
                        } else {
                            assert(holds(r.st, c.dst.0, to));
                            assert(holds(r0.st, c.dst.0, to));
                        }
                    }
                }
            },
            _ => {},
        }
    }
}

proof fn run_reaches(r: RunV, p: ProgramV, models: Seq<ModelV>, g: PagV, budget: nat)
    requires
        run_sound(r, loaded_in(g)),
        extended(g, r.pag),
        g.constraints.len() <= usize::MAX,
        on_track(r, g, p),
        fields_on_track(r, g, p),
        inside(r),
    ensures
        r.settles(p, models, budget) ==> fields_on_track(r.run(p, models, budget), g, p),
    decreases budget,
{
    if r.st.worklist.len() == 0 {
    } else if budget == 0 {
    } else {
        step_keeps(r, p, models, g);
        step_reaches(r, p, models, g);
        step_inside(r, p, models, loaded_in(g));
        run_reaches(r.step(p, models), p, models, g, (budget - 1) as nat);
    }
}

proof fn settled_reaches(g: PagV, p: ProgramV, models: Seq<ModelV>, budget: nat)
    requires
        placed(g),
        g.constraints.len() <= usize::MAX,
        g.start(p, models).settles(p, models, budget),
    ensures
        ({
            let end = g.start(p, models).run(p, models, budget);
            &&& fields_on_track(end, g, p)
            &&& extended(g, end.pag)
            &&& forall|n: u32, l: u32| !(#[trigger] waits(end.st, n, l))
        }),
{
    let from = loaded_in(g);
    let a = before_calls(g, p);
    let r = g.start(p, models);
    before_calls_sound(g, p, models);
    start_inside(g, p, models);
    extended_refl(g);
    assert(fields_on_track(a, g, p)) by {
        assert forall|i: int| 0 <= i < g.constraints.len() && listed(g, i) implies reached(
            a,
            p,
            #[trigger] g.constraints[i],
        ) by {}
    }
    with_direct_calls_grows(a, p, models, p.symbols.call_sites.len() as int, from);
    fields_kept(a, r, g, p);
    start_keeps(g, p, models);
    run_keeps(r, p, models, g, budget);
    run_reaches(r, p, models, g, budget);
    let end = r.run(p, models, budget);
    assert forall|n: u32, l: u32| !(#[trigger] waits(end.st, n, l)) by {
        if waits(end.st, n, l) {
            assert(end.st.queued.contains(n));
        }
    }
}

/// What a node holds of the fields of an object once a graph is solved.
pub open spec fn may_hold_field(
    g: PagV,
    p: ProgramV,
    models: Seq<ModelV>,
    budget: nat,
    n: u32,
    l: u32,
    field: FieldId,
) -> bool {
    holds_field(g.start(p, models).run(p, models, budget), p, n, l, field)
}

/// Once solving settles, the destination of a field access may hold that field
/// of every object that the base may hold and that has it.
pub proof fn fields_are_reached(
    g: PagV,
    p: ProgramV,
    models: Seq<ModelV>,
    budget: nat,
    i: int,
    l: u32,
)
    requires
        placed(g),
        g.constraints.len() <= usize::MAX,
        g.start(p, models).settles(p, models, budget),
        0 <= i < g.constraints.len(),
        listed(g, i),
        g.constraints[i].kind == ConstraintKind::Gep,
        g.constraints[i].field is Some,
        may_hold(g, p, models, budget, g.constraints[i].src.0, l),
        has_field(
            solved_pag(g, p, models, budget),
            p,
            l,
            g.constraints[i].field->0,
            g.constraints[i].field_name,
        ),
    ensures
        may_hold_field(
            g,
            p,
            models,
            budget,
            g.constraints[i].dst.0,
            l,
            g.constraints[i].field->0,
        ),
{
    settled_reaches(g, p, models, budget);
    let end = g.start(p, models).run(p, models, budget);
    assert(reached(end, p, g.constraints[i]));
    assert(holds(end.st, g.constraints[i].src.0, l));
}

/// Once solving settles, a lookup by name may give every function that is
/// named by a string that the lookup may be given.
pub proof fn names_are_looked_up(
    g: PagV,
    p: ProgramV,
    models: Seq<ModelV>,
    budget: nat,
    i: int,
    l: u32,
    k: int,
)
    requires
        placed(g),
        g.constraints.len() <= usize::MAX,
        g.start(p, models).settles(p, models, budget),
        0 <= i < g.constraints.len(),
        listed(g, i),
        g.constraints[i].kind == ConstraintKind::Dlsym,
        may_hold(g, p, models, budget, g.constraints[i].src.0, l),
        0 <= k < p.symbols.functions.len(),
        names_function(solved_pag(g, p, models, budget), l, p.symbols.functions[k]),
    ensures
        may_hold(
            g,
            p,
            models,
            budget,
            g.constraints[i].dst.0,
            function_place(solved_pag(g, p, models, budget), p.symbols.functions[k].id),
        ),
{
    settled_reaches(g, p, models, budget);
    let end = g.start(p, models).run(p, models, budget);
    assert(reached(end, p, g.constraints[i]));
    assert(holds(end.st, g.constraints[i].src.0, l));
    assert(p.symbols.functions[k] == p.symbols.functions[k]);
}

proof fn indices_list(a: PagV, to: int)
    requires
        0 <= to <= a.constraints.len() <= usize::MAX,
    ensures
        a.with_indices(0, to).constraints == a.constraints,
        forall|i: int| 0 <= i < to ==> #[trigger] listed(a.with_indices(0, to), i),
    decreases to,
{
    if to > 0 {
        indices_list(a, to - 1);
        let q = a.with_indices(0, to - 1);
        let b = a.with_indices(0, to);
        let c = a.constraints[to - 1];
        let n = (to - 1) as usize;
        listed_holds(q.indices.gep_src, c.src.0, n);
        listed_holds(q.indices.dlsym_src, c.src.0, n);
        assert forall|i: int| 0 <= i < to implies #[trigger] listed(b, i) by {
            if i < to - 1 {
                assert(listed(q, i));
            }
        }
    }
}

proof fn calls_leave_lists(a: PagV, sites: Seq<SiteV>, n: int)
    ensures
        a.with_call_indices(sites, n).constraints == a.constraints,
        a.with_call_indices(sites, n).indices.gep_src == a.indices.gep_src,
        a.with_call_indices(sites, n).indices.dlsym_src == a.indices.dlsym_src,
    decreases n,
{
    if n > 0 {
        calls_leave_lists(a, sites, n - 1);
    }
}

/// In the graph of a program every field access and every lookup is listed
/// under its source.
pub proof fn accesses_are_listed(p: ProgramV, models: Seq<ModelV>)
    requires
        p.graph(models).constraints.len() <= usize::MAX,
    ensures
        ({
            let g = solved_graph(p, models);
            forall|i: int| 0 <= i < g.constraints.len() ==> #[trigger] listed(g, i)
        }),
{
    let sites = p.symbols.call_sites;
    let a = PagV::empty().with_variables(
        p.symbols.variables,
        p.symbols.variables.len() as int,
    ).with_functions(p.symbols.functions, p.symbols.functions.len() as int).with_flows(
        p,
        models,
        p.flow.len() as int,
    ).with_lookups(sites, models, sites.len() as int).with_calls(p, sites.len() as int);
    let b = a.with_indices(0, a.constraints.len() as int);
    calls_leave_lists(b, sites, sites.len() as int);
    let c = b.with_call_indices(sites, sites.len() as int);
    let g = solved_graph(p, models);
    assert(g.constraints == c.constraints);
    indices_keep(a, a.constraints.len() as int);
    indices_list(a, a.constraints.len() as int);
    assert forall|i: int| 0 <= i < g.constraints.len() implies #[trigger] listed(g, i) by {
        assert(listed(b, i));
    }
}

/// A field access takes nothing from an object that is known to have no such
/// field, or another field in its place.
pub proof fn other_fields_are_not_reached(
    r: RunV,
    p: ProgramV,
    c: ConstraintV,
    field: FieldId,
    name: Seq<char>,
    delta: Seq<u32>,
    k: int,
)
    requires
        0 <= k <= delta.len(),
        c.field_name == Some(name),
        forall|j: int|
            0 <= j < k ==> match r.pag.object_type(p, LocId(#[trigger] delta[j])) {
                Some(ty) => match p.types.field(ty, field) {
                    Some(found) => found.name != name,
                    None => true,
                },
                None => false,
            },
    ensures
        r.with_gep_locs(p, c, field, delta, k) == (r, false),
    decreases k,
{
    if k > 0 {
        other_fields_are_not_reached(r, p, c, field, name, delta, k - 1);
        assert(!r.field_fits(p, delta[k - 1], field, c.field_name));
    }
}

} // verus!
