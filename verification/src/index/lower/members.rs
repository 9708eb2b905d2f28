//! Which functions a call of a member reaches, over the hierarchy of classes.

use crate::index::lower::calls::{bases_are_bases, reached, reached_bound, reached_more, ArgsV};
use crate::index::lower::moves::{field_found, is_field_at};
use crate::index::lower::state::LowerV;
use crate::index::names::{normal_name, without_args};
use crate::index::syntax::{kind_from, text_of, FieldName, NodeKind, NodeV};
use crate::ir::ids::{FnId, Span, VarId};
use crate::ir::program::{
    direct_bases, last_segment, member_name, segment_start, subclasses_are_what_derives, MethodV,
    ProgramV,
};
use crate::ir::symbol::with_fns;
use crate::ir::types::DescV;
use crate::text::with_names;
use vstd::prelude::*;

verus! {

/// Whether a class of a list derives directly from the next one.
pub open spec fn derives_from_next(
    edges: Seq<(Seq<char>, Seq<char>)>,
    path: Seq<Seq<char>>,
    k: int,
) -> bool {
    edges.contains((path[k], path[k + 1]))
}

/// Whether each class of a list derives directly from the next one.
pub open spec fn is_chain(edges: Seq<(Seq<char>, Seq<char>)>, path: Seq<Seq<char>>) -> bool {
    &&& path.len() > 0
    &&& forall|k: int| 0 <= k < path.len() - 1 ==> #[trigger] derives_from_next(edges, path, k)
}

/// Whether a class has functions under the name of a member.
pub open spec fn declares(p: ProgramV, cls: Seq<char>, kind: MethodV) -> bool {
    p.symbols.external(member_name(kind, cls)).len() > 0
}

/// Whether a list of classes leads from a class up to one that declares a
/// member.
pub open spec fn leads_to(
    p: ProgramV,
    cls: Seq<char>,
    kind: MethodV,
    path: Seq<Seq<char>>,
) -> bool {
    is_chain(p.inheritance, path) && path[0] == cls && declares(p, path.last(), kind)
}

/// Whether a class is so many derivations above another.
spec fn is_above(
    edges: Seq<(Seq<char>, Seq<char>)>,
    cls: Seq<char>,
    base: Seq<char>,
    d: int,
) -> bool {
    exists|path: Seq<Seq<char>>| #[trigger]
        is_chain(edges, path) && path[0] == cls && path.last() == base && path.len() == d + 1
}

proof fn chain_goes_on(
    edges: Seq<(Seq<char>, Seq<char>)>,
    cls: Seq<char>,
    mid: Seq<char>,
    base: Seq<char>,
    d: int,
)
    requires
        is_above(edges, cls, mid, d),
        edges.contains((mid, base)),
    ensures
        is_above(edges, cls, base, d + 1),
{
    let path = choose|path: Seq<Seq<char>>| #[trigger]
        is_chain(edges, path) && path[0] == cls && path.last() == mid && path.len() == d + 1;
    let more = path.push(base);
    assert forall|k: int| 0 <= k < more.len() - 1 implies #[trigger] derives_from_next(
        edges,
        more,
        k,
    ) by {
        if k < path.len() - 1 {
            assert(derives_from_next(edges, path, k));
        }
    }
    assert(is_chain(edges, more));
    assert(more.last() == base);
}

proof fn bases_are_listed(edges: Seq<(Seq<char>, Seq<char>)>, cls: Seq<char>, n: int)
    requires
        0 <= n <= edges.len(),
    ensures
        forall|b: Seq<char>| #[trigger]
            direct_bases(edges, cls, n).contains(b) <==> exists|j: int|
                0 <= j < n && #[trigger] edges[j] == (cls, b),
    decreases n,
{
    if n > 0 {
        bases_are_listed(edges, cls, n - 1);
        let before = direct_bases(edges, cls, n - 1);
        let all = direct_bases(edges, cls, n);
        assert forall|b: Seq<char>| #[trigger] all.contains(b) <==> exists|j: int|
            0 <= j < n && #[trigger] edges[j] == (cls, b) by {
            if all.contains(b) {
                let k = choose|k: int| 0 <= k < all.len() && all[k] == b;
                if k < before.len() {
                    assert(before[k] == b);
                    assert(before.contains(b));
                } else {
                    assert(edges[n - 1] == (cls, b));
                }
            }
            if exists|j: int| 0 <= j < n && #[trigger] edges[j] == (cls, b) {
                let j = choose|j: int| 0 <= j < n && #[trigger] edges[j] == (cls, b);
                if j < n - 1 {
                    assert(before.contains(b));
                    let k = choose|k: int| 0 <= k < before.len() && before[k] == b;
                    assert(all[k] == b);
                } else {
                    assert(all[all.len() - 1] == b);
                }
            }
        }
    }
}

proof fn names_follow(names: Seq<Seq<char>>, more: Seq<Seq<char>>)
    ensures
        names.len() <= with_names(names, more).len(),
        forall|k: int| 0 <= k < names.len() ==> #[trigger] with_names(names, more)[k] == names[k],
        forall|k: int|
            names.len() <= k < with_names(names, more).len() ==> more.contains(
                #[trigger] with_names(names, more)[k],
            ),
        forall|x: Seq<char>| more.contains(x) ==> #[trigger] with_names(names, more).contains(x),
    decreases more.len(),
{
    if more.len() > 0 {
        let rest = more.drop_last();
        names_follow(names, rest);
        let before = with_names(names, rest);
        let all = with_names(names, more);
        assert forall|k: int| names.len() <= k < all.len() implies more.contains(
            #[trigger] all[k],
        ) by {
            if k < before.len() {
                assert(all[k] == before[k]);
                let m = choose|m: int| 0 <= m < rest.len() && rest[m] == before[k];
                assert(more[m] == all[k]);
            } else {
                assert(more[more.len() - 1] == all[k]);
            }
        }
        assert forall|x: Seq<char>| more.contains(x) implies #[trigger] all.contains(x) by {
            let m = choose|m: int| 0 <= m < more.len() && more[m] == x;
            if m < rest.len() {
                assert(rest[m] == x);
                assert(before.contains(x));
                let k = choose|k: int| 0 <= k < before.len() && before[k] == x;
                assert(all[k] == x);
            } else if !before.contains(x) {
                assert(all[all.len() - 1] == x);
            }
        }
    }
}

/// Whether the direct bases of the first `i` classes of a list are in it, none
/// of them more than one derivation further up.
spec fn bases_seen(
    edges: Seq<(Seq<char>, Seq<char>)>,
    seen: Seq<Seq<char>>,
    depth: Seq<int>,
    i: int,
) -> bool {
    forall|k: int, b: Seq<char>|
        0 <= k < i && #[trigger] edges.contains((seen[k], b)) ==> at_depth(
            seen,
            depth,
            b,
            depth[k] + 1,
        )
}

spec fn at_depth(seen: Seq<Seq<char>>, depth: Seq<int>, b: Seq<char>, d: int) -> bool {
    exists|m: int| 0 <= m < seen.len() && #[trigger] seen[m] == b && depth[m] <= d
}

/// How a search that goes up level by level stands before the class at `i`.
spec fn searched(
    p: ProgramV,
    cls: Seq<char>,
    kind: MethodV,
    seen: Seq<Seq<char>>,
    depth: Seq<int>,
    i: int,
) -> bool {
    &&& reached(p.inheritance, seen)
    &&& 0 <= i <= seen.len()
    &&& seen[0] == cls
    &&& depth.len() == seen.len()
    &&& depth[0] == 0
    &&& ascending(depth)
    &&& forall|k: int|
        0 <= k < seen.len() ==> is_above(p.inheritance, cls, #[trigger] seen[k], depth[k])
    &&& forall|k: int| 0 <= k < i ==> !declares(p, #[trigger] seen[k], kind)
    &&& bases_seen(p.inheritance, seen, depth, i)
    &&& i < seen.len() ==> forall|m: int|
        0 <= m < depth.len() ==> #[trigger] depth[m] <= depth[i] + 1
}

/// A list that leads to a class that declares the member has come to a class
/// that has not been looked at, no later than so many derivations up.
proof fn search_is_ahead(
    p: ProgramV,
    cls: Seq<char>,
    kind: MethodV,
    seen: Seq<Seq<char>>,
    depth: Seq<int>,
    i: int,
    path: Seq<Seq<char>>,
    t: int,
) -> (m: int)
    requires
        searched(p, cls, kind, seen, depth, i),
        leads_to(p, cls, kind, path),
        0 <= t < path.len(),
        at_depth(seen, depth, path[t], t),
    ensures
        i <= m < seen.len(),
        depth[m] <= path.len() - 1,
    decreases path.len() - t,
{
    let m = choose|m: int| 0 <= m < seen.len() && #[trigger] seen[m] == path[t] && depth[m] <= t;
    if m >= i {
        m
    } else {
        assert(!declares(p, seen[m], kind));
        assert(t < path.len() - 1);
        assert(derives_from_next(p.inheritance, path, t));
        assert(p.inheritance.contains((seen[m], path[t + 1])));
        assert(at_depth(seen, depth, path[t + 1], depth[m] + 1));
        let h = choose|h: int|
            0 <= h < seen.len() && #[trigger] seen[h] == path[t + 1] && depth[h] <= depth[m] + 1;
        assert(at_depth(seen, depth, path[t + 1], t + 1)) by {
            assert(seen[h] == path[t + 1] && depth[h] <= t + 1);
        }
        search_is_ahead(p, cls, kind, seen, depth, i, path, t + 1)
    }
}

/// The depths once classes one derivation above that at `i` are behind the others.
spec fn deeper(depth: Seq<int>, i: int, len: int) -> Seq<int> {
    Seq::new(
        len as nat,
        |k: int|
            if k < depth.len() {
                depth[k]
            } else {
                depth[i] + 1
            },
    )
}

spec fn ascending(depth: Seq<int>) -> bool {
    forall|a: int, b: int|
        0 <= a <= b < depth.len() ==> #[trigger] depth[a] <= #[trigger] depth[b]
}

proof fn deeper_ascends(depth: Seq<int>, i: int, len: int)
    requires
        ascending(depth),
        0 <= i < depth.len() <= len,
        forall|m: int| 0 <= m < depth.len() ==> #[trigger] depth[m] <= depth[i] + 1,
    ensures
        ascending(deeper(depth, i, len)),
        i + 1 < len ==> forall|m: int|
            0 <= m < len ==> #[trigger] deeper(depth, i, len)[m] <= deeper(depth, i, len)[i + 1]
                + 1,
{
    let next = deeper(depth, i, len);
    if i + 1 < len {
        assert forall|m: int| 0 <= m < len implies #[trigger] next[m] <= next[i + 1] + 1 by {
            if i + 1 < depth.len() {
                assert(depth[i] <= depth[i + 1]);
            }
        }
    }
}

proof fn bases_stay_seen(
    edges: Seq<(Seq<char>, Seq<char>)>,
    seen: Seq<Seq<char>>,
    depth: Seq<int>,
    i: int,
)
    requires
        bases_seen(edges, seen, depth, i),
        0 <= i < seen.len(),
        depth.len() == seen.len(),
        forall|m: int| 0 <= m < depth.len() ==> #[trigger] depth[m] <= depth[i] + 1,
    ensures
        ({
            let all = with_names(seen, direct_bases(edges, seen[i], edges.len() as int));
            bases_seen(edges, all, deeper(depth, i, all.len() as int), i + 1)
        }),
{
    let bases = direct_bases(edges, seen[i], edges.len() as int);
    let all = with_names(seen, bases);
    let next = deeper(depth, i, all.len() as int);
    names_follow(seen, bases);
    bases_are_listed(edges, seen[i], edges.len() as int);
    assert forall|k: int, b: Seq<char>|
        0 <= k < i + 1 && #[trigger] edges.contains((all[k], b)) implies at_depth(
        all,
        next,
        b,
        next[k] + 1,
    ) by {
        assert(all[k] == seen[k]);
        if k < i {
            assert(edges.contains((seen[k], b)));
            assert(at_depth(seen, depth, b, depth[k] + 1));
            let m = choose|m: int|
                0 <= m < seen.len() && #[trigger] seen[m] == b && depth[m] <= depth[k] + 1;
            assert(all[m] == b && next[m] <= next[k] + 1);
        } else {
            let j = choose|j: int| 0 <= j < edges.len() && edges[j] == (seen[i], b);
            assert(edges[j] == (seen[i], b));
            assert(bases.contains(b));
            assert(all.contains(b));
            let m = choose|m: int| 0 <= m < all.len() && all[m] == b;
            assert(all[m] == b && next[m] <= next[k] + 1);
        }
    }
}

proof fn bases_are_above(
    edges: Seq<(Seq<char>, Seq<char>)>,
    cls: Seq<char>,
    seen: Seq<Seq<char>>,
    depth: Seq<int>,
    i: int,
)
    requires
        0 <= i < seen.len(),
        depth.len() == seen.len(),
        forall|k: int| 0 <= k < seen.len() ==> is_above(edges, cls, #[trigger] seen[k], depth[k]),
    ensures
        ({
            let all = with_names(seen, direct_bases(edges, seen[i], edges.len() as int));
            let next = deeper(depth, i, all.len() as int);
            forall|k: int| 0 <= k < all.len() ==> is_above(edges, cls, #[trigger] all[k], next[k])
        }),
{
    let bases = direct_bases(edges, seen[i], edges.len() as int);
    let all = with_names(seen, bases);
    let next = deeper(depth, i, all.len() as int);
    names_follow(seen, bases);
    bases_are_listed(edges, seen[i], edges.len() as int);
    assert forall|k: int| 0 <= k < all.len() implies is_above(
        edges,
        cls,
        #[trigger] all[k],
        next[k],
    ) by {
        if k < seen.len() {
            assert(all[k] == seen[k]);
        } else {
            assert(bases.contains(all[k]));
            let j = choose|j: int|
                0 <= j < edges.len() && #[trigger] edges[j] == (seen[i], all[k]);
            assert(edges.contains((seen[i], all[k])));
            assert(is_above(edges, cls, seen[i], depth[i]));
            chain_goes_on(edges, cls, seen[i], all[k], depth[i]);
        }
    }
}

proof fn search_goes_on(
    p: ProgramV,
    cls: Seq<char>,
    kind: MethodV,
    seen: Seq<Seq<char>>,
    depth: Seq<int>,
    i: int,
) -> (next: Seq<int>)
    requires
        searched(p, cls, kind, seen, depth, i),
        i < seen.len(),
        !declares(p, seen[i], kind),
    ensures
        searched(
            p,
            cls,
            kind,
            with_names(
                seen,
                direct_bases(p.inheritance, seen[i], p.inheritance.len() as int),
            ),
            next,
            i + 1,
        ),
{
    let edges = p.inheritance;
    let bases = direct_bases(edges, seen[i], edges.len() as int);
    let all = with_names(seen, bases);
    let next = deeper(depth, i, all.len() as int);
    assert(all.len() >= seen.len() && all[0] == seen[0]) by {
        names_follow(seen, bases);
    }
    assert(reached(edges, all)) by {
        bases_are_bases(edges, seen[i], edges.len() as int);
        reached_more(edges, seen, bases);
    }
    deeper_ascends(depth, i, all.len() as int);
    bases_stay_seen(edges, seen, depth, i);
    bases_are_above(edges, cls, seen, depth, i);
    assert forall|k: int| 0 <= k < i + 1 implies !declares(p, #[trigger] all[k], kind) by {
        names_follow(seen, bases);
        assert(all[k] == seen[k]);
    }
    next
}

/// The class that a search that goes up level by level ends at.
proof fn search_ends(
    p: ProgramV,
    cls: Seq<char>,
    kind: MethodV,
    seen: Seq<Seq<char>>,
    depth: Seq<int>,
    i: int,
    some: Seq<Seq<char>>,
) -> (near: Seq<Seq<char>>)
    requires
        searched(p, cls, kind, seen, depth, i),
        leads_to(p, cls, kind, some),
    ensures
        leads_to(p, cls, kind, near),
        forall|path: Seq<Seq<char>>| #[trigger]
            leads_to(p, cls, kind, path) ==> near.len() <= path.len(),
        p.upward(cls, kind, seen, i) == (if kind is Dtor || p.any_virtual(
            p.symbols.external(member_name(kind, near.last())),
        ) {
            p.method_targets(near.last(), kind)
        } else {
            p.symbols.external(member_name(kind, near.last()))
        }),
    decreases p.inheritance.len() + 1 - i,
{
    reached_bound(p.inheritance, seen);
    assert(at_depth(seen, depth, some[0], 0)) by {
        assert(seen[0] == some[0] && depth[0] <= 0);
    }
    let m = search_is_ahead(p, cls, kind, seen, depth, i, some, 0);
    if declares(p, seen[i], kind) {
        assert(is_above(p.inheritance, cls, seen[i], depth[i]));
        let near = choose|path: Seq<Seq<char>>| #[trigger]
            is_chain(p.inheritance, path) && path[0] == cls && path.last() == seen[i] && path.len()
                == depth[i] + 1;
        assert forall|path: Seq<Seq<char>>| #[trigger]
            leads_to(p, cls, kind, path) implies near.len() <= path.len() by {
            assert(at_depth(seen, depth, path[0], 0)) by {
                assert(seen[0] == path[0] && depth[0] <= 0);
            }
            let h = search_is_ahead(p, cls, kind, seen, depth, i, path, 0);
            assert(depth[i] <= depth[h]);
        }
        near
    } else {
        let next = search_goes_on(p, cls, kind, seen, depth, i);
        search_ends(
            p,
            cls,
            kind,
            with_names(seen, direct_bases(p.inheritance, seen[i], p.inheritance.len() as int)),
            next,
            i + 1,
            some,
        )
    }
}

proof fn with_fns_hold(ids: Seq<FnId>, more: Seq<FnId>)
    ensures
        forall|x: FnId| #[trigger]
            with_fns(ids, more).contains(x) <==> ids.contains(x) || more.contains(x),
    decreases more.len(),
{
    if more.len() > 0 {
        let rest = more.drop_last();
        with_fns_hold(ids, rest);
        let before = with_fns(ids, rest);
        let all = with_fns(ids, more);
        assert forall|x: FnId| #[trigger] all.contains(x) <==> ids.contains(x) || more.contains(
            x,
        ) by {
            assert(more.contains(x) <==> rest.contains(x) || x == more.last()) by {
                if more.contains(x) {
                    let k = choose|k: int| 0 <= k < more.len() && more[k] == x;
                    if k < rest.len() {
                        assert(rest[k] == x);
                    }
                }
                if rest.contains(x) {
                    let k = choose|k: int| 0 <= k < rest.len() && rest[k] == x;
                    assert(more[k] == x);
                }
                if x == more.last() {
                    assert(more[more.len() - 1] == x);
                }
            }
            assert(all.contains(x) <==> before.contains(x) || x == more.last()) by {
                if before.contains(x) {
                    let k = choose|k: int| 0 <= k < before.len() && before[k] == x;
                    assert(all[k] == x);
                }
                if x == more.last() && !before.contains(x) {
                    assert(all[all.len() - 1] == x);
                }
            }
        }
    }
}

proof fn targets_hold(p: ProgramV, classes: Seq<Seq<char>>, kind: MethodV, n: int)
    requires
        0 <= n <= classes.len(),
    ensures
        forall|f: FnId| #[trigger]
            p.targets(classes, kind, n).contains(f) <==> exists|k: int|
                0 <= k < n && p.symbols.external(
                    member_name(kind, #[trigger] classes[k]),
                ).contains(f),
    decreases n,
{
    if n > 0 {
        targets_hold(p, classes, kind, n - 1);
        with_fns_hold(
            p.targets(classes, kind, n - 1),
            p.symbols.external(member_name(kind, classes[n - 1])),
        );
        assert forall|f: FnId| #[trigger]
            p.targets(classes, kind, n).contains(f) <==> exists|k: int|
                0 <= k < n && p.symbols.external(
                    member_name(kind, #[trigger] classes[k]),
                ).contains(f) by {
            if p.targets(classes, kind, n - 1).contains(f) {
                let k = choose|k: int|
                    0 <= k < n - 1 && p.symbols.external(
                        member_name(kind, #[trigger] classes[k]),
                    ).contains(f);
                assert(p.symbols.external(member_name(kind, classes[k])).contains(f));
            }
        }
    }
}

proof fn below_are_subclasses(p: ProgramV, path: Seq<Seq<char>>, t: int)
    requires
        is_chain(p.inheritance, path),
        0 <= t < path.len(),
    ensures
        p.subclasses(path.last()).contains(path[t]),
    decreases path.len() - t,
{
    let out = p.subclasses(path.last());
    subclasses_are_what_derives(p, path.last());
    if t == path.len() - 1 {
        assert(out[0] == path[t]);
    } else {
        below_are_subclasses(p, path, t + 1);
        let m = choose|m: int| 0 <= m < out.len() && out[m] == path[t + 1];
        assert(derives_from_next(p.inheritance, path, t));
        let j = choose|j: int|
            0 <= j < p.inheritance.len() && p.inheritance[j] == (path[t], path[t + 1]);
        assert(p.inheritance[j].1 == out[m]);
        assert(out.contains(p.inheritance[j].0));
    }
}

/// A function that is declared under the name of a member on a class that
/// derives from another, or on that class itself, is among what a call of the
/// member on the other may reach, and nothing else is.
pub proof fn overrides_are_reached(
    p: ProgramV,
    cls: Seq<char>,
    kind: MethodV,
    path: Seq<Seq<char>>,
    f: FnId,
)
    requires
        is_chain(p.inheritance, path),
        path.last() == cls,
        p.symbols.external(member_name(kind, path[0])).contains(f),
    ensures
        p.method_targets(cls, kind).contains(f),
{
    below_are_subclasses(p, path, 0);
    let out = p.subclasses(cls);
    targets_hold(p, out, kind, out.len() as int);
    let k = choose|k: int| 0 <= k < out.len() && out[k] == path[0];
    assert(p.symbols.external(member_name(kind, out[k])).contains(f));
}

/// Where a class, or one that it derives from, declares a member, a call of the
/// member on the class reaches what is declared on a nearest such class, and
/// not nothing. If that is virtual, or a destructor, what overrides it on the
/// classes below that class is reached too; else nothing else is.
pub proof fn members_are_found_on_the_nearest_class(
    p: ProgramV,
    cls: Seq<char>,
    kind: MethodV,
    some: Seq<Seq<char>>,
) -> (near: Seq<Seq<char>>)
    requires
        leads_to(p, cls, kind, some),
    ensures
        leads_to(p, cls, kind, near),
        forall|path: Seq<Seq<char>>| #[trigger]
            leads_to(p, cls, kind, path) ==> near.len() <= path.len(),
        p.member_targets(cls, kind).len() > 0,
        forall|f: FnId| #[trigger]
            p.symbols.external(member_name(kind, near.last())).contains(f)
                ==> p.member_targets(cls, kind).contains(f),
        ({
            let own = p.symbols.external(member_name(kind, near.last()));
            if kind is Dtor || exists|j: int|
                0 <= j < own.len() && (p.symbols.function(#[trigger] own[j]) matches Some(f)
                    && f.is_virtual) {
                forall|path: Seq<Seq<char>>, f: FnId|
                    is_chain(p.inheritance, path) && path.last() == near.last()
                        && #[trigger] p.symbols.external(member_name(kind, path[0])).contains(f)
                        ==> p.member_targets(cls, kind).contains(f)
            } else {
                p.member_targets(cls, kind) == own
            }
        }),
{
    let depth = seq![0int];
    let seen = seq![cls];
    assert(is_chain(p.inheritance, seen));
    assert(seen.last() == cls);
    assert(is_above(p.inheritance, cls, seen[0], depth[0]));
    assert(searched(p, cls, kind, seen, depth, 0));
    let near = search_ends(p, cls, kind, seen, depth, 0, some);
    let base = near.last();
    let own = p.symbols.external(member_name(kind, base));
    let single = seq![base];
    assert(is_chain(p.inheritance, single));
    assert forall|f: FnId| #[trigger] own.contains(f) implies p.member_targets(cls, kind).contains(
        f,
    ) by {
        overrides_are_reached(p, base, kind, single, f);
    }
    assert(own.contains(own[0]));
    if kind is Dtor || p.any_virtual(own) {
        assert forall|path: Seq<Seq<char>>, f: FnId|
            is_chain(p.inheritance, path) && path.last() == base
                && #[trigger] p.symbols.external(member_name(kind, path[0])).contains(f) implies
            p.member_targets(cls, kind).contains(f) by {
            overrides_are_reached(p, base, kind, path, f);
        }
    }
    near
}

/// A member is spelled on a class by the name of the class and its own; a
/// constructor has the last part of the class's name, and a destructor that
/// behind `~`.
pub proof fn members_are_spelled_on_their_class(cls: Seq<char>, name: Seq<char>)
    ensures
        member_name(MethodV::Named(name), cls) == cls + "::"@ + name,
        !cls.contains(':') ==> member_name(MethodV::Ctor, cls) == cls + "::"@ + cls,
        !cls.contains(':') ==> member_name(MethodV::Dtor, cls) == cls + "::~"@ + cls,
        !name.contains(':') ==> last_segment(cls + "::"@ + name) == name,
{
    reveal_strlit("::");
    if !cls.contains(':') {
        plain_names_are_whole(cls, cls.len() as int);
        assert(cls.skip(0) =~= cls);
    }
    if !name.contains(':') {
        let full = cls + "::"@ + name;
        segment_found(cls, name, full.len() as int);
        assert(full.skip(cls.len() + 2int) =~= name);
    }
}

proof fn plain_names_are_whole(name: Seq<char>, i: int)
    requires
        !name.contains(':'),
        i <= name.len(),
    ensures
        segment_start(name, i) == 0,
    decreases i,
{
    if i >= 2 {
        assert(name.contains(name[i - 1]));
        plain_names_are_whole(name, i - 1);
    }
}

proof fn segment_found(cls: Seq<char>, name: Seq<char>, i: int)
    requires
        !name.contains(':'),
        cls.len() + 2 <= i <= cls.len() + 2 + name.len(),
    ensures
        segment_start(cls + "::"@ + name, i) == cls.len() + 2,
    decreases i,
{
    reveal_strlit("::");
    let full = cls + "::"@ + name;
    if i == cls.len() + 2 {
        assert(full[i - 2] == ':' && full[i - 1] == ':');
    } else {
        assert(full[i - 1] == name[i - 1 - cls.len() - 2]);
        assert(name.contains(full[i - 1]));
        segment_found(cls, name, i - 1);
    }
}

/// Whether one of the call sites is a direct call of a function, from a
/// function, at a place and with arguments.
pub open spec fn has_direct_call(
    s: LowerV,
    caller: FnId,
    callee: FnId,
    args: ArgsV,
    span: Span,
) -> bool {
    exists|k: int|
        0 <= k < s.p.symbols.call_sites.len() && {
            let c = #[trigger] s.p.symbols.call_sites[k];
            &&& c.caller == caller
            &&& c.callee_fn_id == Some(callee)
            &&& c.is_direct
            &&& c.var_args == args.vars
            &&& c.fn_args == args.fns
            &&& c.span == span
        }
}

proof fn member_sites_hold(
    s: LowerV,
    caller: FnId,
    display: Seq<char>,
    targets: Seq<FnId>,
    args: ArgsV,
    span: Span,
    n: int,
)
    requires
        0 <= n <= targets.len(),
    ensures
        ({
            let t = s.with_member_sites(caller, display, targets, args, span, n);
            &&& t.p.symbols.call_sites.len() == s.p.symbols.call_sites.len() + n
            &&& forall|k: int|
                0 <= k < n ==> has_direct_call(t, caller, #[trigger] targets[k], args, span)
            &&& t.p.flow == s.p.flow
        }),
    decreases n,
{
    if n > 0 {
        member_sites_hold(s, caller, display, targets, args, span, n - 1);
        let r = s.with_member_sites(caller, display, targets, args, span, n - 1);
        let t = s.with_member_sites(caller, display, targets, args, span, n);
        let old_sites = r.p.symbols.call_sites;
        let sites = t.p.symbols.call_sites;
        assert forall|k: int| 0 <= k < n implies has_direct_call(
            t,
            caller,
            #[trigger] targets[k],
            args,
            span,
        ) by {
            if k < n - 1 {
                assert(has_direct_call(r, caller, targets[k], args, span));
                let j = choose|j: int|
                    0 <= j < old_sites.len() && {
                        let c = #[trigger] old_sites[j];
                        &&& c.caller == caller
                        &&& c.callee_fn_id == Some(targets[k])
                        &&& c.is_direct
                        &&& c.var_args == args.vars
                        &&& c.fn_args == args.fns
                        &&& c.span == span
                    };
                assert(sites[j] == old_sites[j]);
            } else {
                assert(sites[old_sites.len() as int].callee_fn_id == Some(targets[k]));
            }
        }
    }
}

/// Every function that a member may be is called directly where the member is,
/// with the arguments of the call; and a member that may be no function leaves a
/// call that leads nowhere.
pub proof fn member_calls_reach_their_targets(
    s: LowerV,
    caller: FnId,
    cls: Seq<char>,
    kind: MethodV,
    args: ArgsV,
    span: Span,
    f: FnId,
)
    ensures
        ({
            let t = s.with_member_call(caller, cls, kind, args, span);
            let n = s.p.symbols.call_sites.len();
            &&& s.p.member_targets(cls, kind).contains(f) ==> has_direct_call(
                t,
                caller,
                f,
                args,
                span,
            )
            &&& s.p.member_targets(cls, kind).len() == 0 ==> {
                &&& t.p.symbols.call_sites.len() == n + 1
                &&& !t.p.symbols.call_sites[n as int].is_direct
                &&& t.p.symbols.call_sites[n as int].callee_name == member_name(kind, cls)
            }
        }),
{
    let targets = s.p.member_targets(cls, kind);
    if targets.contains(f) {
        member_sites_hold(
            s,
            caller,
            member_name(kind, cls),
            targets,
            args,
            span,
            targets.len() as int,
        );
        let k = choose|k: int| 0 <= k < targets.len() && targets[k] == f;
        assert(has_direct_call(
            s.with_member_call(caller, cls, kind, args, span),
            caller,
            targets[k],
            args,
            span,
        ));
    }
}

/// A name of a variable has the class that the variable is declared with, or
/// declared to point to, and `*` in front of it changes nothing.
pub proof fn receivers_have_their_declared_class(s: LowerV, n: NodeV, v: VarId, cls: Seq<char>)
    requires
        n.kind == NodeKind::Identifier,
        s.lookup(text_of(s.src, n)) == Some(v),
        s.p.symbols.variable(v) is Some,
        match s.p.types.desc(s.p.symbols.variable(v)->0.type_id) {
            Some(DescV::Struct { name, fields }) => name == cls,
            Some(DescV::Ptr(inner)) => *inner matches DescV::Struct { name, fields } && name
                == cls,
            _ => false,
        },
    ensures
        s.static_class(n) == Some(cls),
{
}

/// A call with `.` or `->` of a member by its plain name is a call of that
/// member on the class of what stands before it.
pub proof fn members_are_called_on_their_receiver(
    s: LowerV,
    func: NodeV,
    i: int,
    j: int,
    cls: Seq<char>,
)
    requires
        s.is_cpp,
        func.kind == NodeKind::FieldExpression,
        exists|k: int|
            0 <= k < func.children.len() && ((#[trigger] func.children[k]).kind == NodeKind::Dot
                || func.children[k].kind == NodeKind::Arrow),
        is_field_at(func, FieldName::Argument, i),
        is_field_at(func, FieldName::Field, j),
        func.children[j].kind == NodeKind::FieldIdentifier,
        s.static_class(func.children[i]) == Some(cls),
    ensures
        s.member_called(func) == Some(
            (
                cls,
                MethodV::Named(without_args(normal_name(text_of(s.src, func.children[j])))),
            ),
        ),
{
    field_found(func, FieldName::Argument, i);
    field_found(func, FieldName::Field, j);
    let k = choose|k: int|
        0 <= k < func.children.len() && ((#[trigger] func.children[k]).kind == NodeKind::Dot
            || func.children[k].kind == NodeKind::Arrow);
    kind_is_found(func, func.children[k].kind, k, 0);
}

proof fn kind_is_found(n: NodeV, kind: NodeKind, k: int, i: int)
    requires
        0 <= i <= k < n.children.len(),
        n.children[k].kind == kind,
    ensures
        kind_from(n, kind, i) is Some,
    decreases k - i,
{
    if n.children[i].kind != kind {
        kind_is_found(n, kind, k, i + 1);
    }
}

} // verus!
