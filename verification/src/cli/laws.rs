//! What walks reach, what arguments define, and which directories lie outside.

use crate::analysis::constraints::{CallGraphEdge, ResolutionKind};
use crate::cli::configure::{
    budget_of, define_of, defines_of, first_index, first_index_bounds, is_absolute, is_under,
    outside, steps,
};
use crate::cli::inspect::{
    calls_query, declared_at, signed_text, without_repeats, Candidate, Direction, QueryV,
};
use crate::cli::pattern::escaped;
use crate::cli::summary::{bodiless, count_of};
use crate::cli::walk::{deeper_holds_more, far, led_to, met, near, within};
use crate::ir::symbol::FnV;
use crate::preproc::condition::{digits_value, parsed_number};
use crate::text::{byte_len, byte_len_concat, decimal_of, trimmed};
use vstd::prelude::*;

verus! {

/// Whether an edge leads from a node to another: down from its first end to its
/// second, up from its second to its first.
pub open spec fn leads(e: (u32, u32), dir: Direction, from: u32, to: u32) -> bool {
    match dir {
        Direction::Down => e.0 == from && e.1 == to,
        Direction::Up => e.1 == from && e.0 == to,
    }
}

/// Whether some edge leads from one node to another.
pub open spec fn steps_to(edges: Seq<(u32, u32)>, dir: Direction, from: u32, to: u32) -> bool {
    exists|i: int| 0 <= i < edges.len() && leads(#[trigger] edges[i], dir, from, to)
}

/// Whether nodes follow each other along edges.
pub open spec fn is_route(edges: Seq<(u32, u32)>, dir: Direction, route: Seq<u32>) -> bool {
    forall|k: int| 0 < k < route.len() ==> #[trigger] goes_on(edges, dir, route, k)
}

/// Whether the node at `k` is led to from the one before it.
pub open spec fn goes_on(edges: Seq<(u32, u32)>, dir: Direction, route: Seq<u32>, k: int) -> bool {
    steps_to(edges, dir, route[k - 1], route[k])
}

/// A walk of some depth reaches every node to which a route of no more edges
/// leads.
pub proof fn walks_reach_their_routes(
    edges: Seq<(u32, u32)>,
    start: u32,
    dir: Direction,
    depth: nat,
    route: Seq<u32>,
)
    requires
        0 < route.len() <= depth + 1,
        route[0] == start,
        is_route(edges, dir, route),
    ensures
        within(edges, start, dir, depth).contains(route.last()),
    decreases depth,
{
    if route.len() == 1 {
        deeper_holds_more(edges, start, dir, 0, depth);
        assert(within(edges, start, dir, 0).contains(start));
    } else {
        let before = route.drop_last();
        assert forall|k: int| 0 < k < before.len() implies #[trigger] goes_on(
            edges,
            dir,
            before,
            k,
        ) by {
            assert(goes_on(edges, dir, route, k));
        }
        walks_reach_their_routes(edges, start, dir, (depth - 1) as nat, before);
        let n = route.len() - 1;
        assert(goes_on(edges, dir, route, n));
        let i = choose|i: int|
            0 <= i < edges.len() && leads(#[trigger] edges[i], dir, route[n - 1], route[n]);
        let around = within(edges, start, dir, (depth - 1) as nat);
        assert(led_to(edges, dir, around, route[n], edges.len() as int)) by {
            assert(far(edges[i], dir) == route[n]);
        }
    }
}

/// To every node that a walk reaches leads a route of no more edges than the walk
/// is deep.
pub proof fn walks_follow_routes(
    edges: Seq<(u32, u32)>,
    start: u32,
    dir: Direction,
    depth: nat,
    v: u32,
) -> (route: Seq<u32>)
    requires
        within(edges, start, dir, depth).contains(v),
    ensures
        0 < route.len() <= depth + 1,
        route[0] == start,
        route.last() == v,
        is_route(edges, dir, route),
    decreases depth,
{
    if depth == 0 {
        seq![start]
    } else {
        let around = within(edges, start, dir, (depth - 1) as nat);
        if around.contains(v) {
            walks_follow_routes(edges, start, dir, (depth - 1) as nat, v)
        } else {
            let i = choose|i: int|
                0 <= i < edges.len() && around.contains(near(edges[i], dir))
                    && #[trigger] far(edges[i], dir) == v;
            let u = near(edges[i], dir);
            let before = walks_follow_routes(edges, start, dir, (depth - 1) as nat, u);
            let route = before.push(v);
            assert(leads(edges[i], dir, u, v));
            assert forall|k: int| 0 < k < route.len() implies #[trigger] goes_on(
                edges,
                dir,
                route,
                k,
            ) by {
                if k < before.len() {
                    assert(goes_on(edges, dir, before, k));
                } else {
                    assert(steps_to(edges, dir, route[k - 1], route[k]));
                }
            }
            route
        }
    }
}

/// The edges that a walk meets are those that start at one of its nodes, down at
/// their first end and up at their second.
pub proof fn walks_meet_the_edges_of_their_nodes(
    edges: Seq<(u32, u32)>,
    dir: Direction,
    nodes: Set<u32>,
    n: int,
    e: (u32, u32),
)
    requires
        0 <= n <= edges.len(),
    ensures
        met(edges, dir, nodes, n).contains(e) <==> exists|i: int|
            0 <= i < n && #[trigger] edges[i] == e && (match dir {
                Direction::Down => nodes.contains(e.0),
                Direction::Up => nodes.contains(e.1),
            }),
    decreases n,
{
    if n > 0 {
        walks_meet_the_edges_of_their_nodes(edges, dir, nodes, n - 1, e);
        let before = met(edges, dir, nodes, n - 1);
        let all = met(edges, dir, nodes, n);
        if before.contains(e) {
            let j = choose|j: int| 0 <= j < before.len() && before[j] == e;
            assert(all[j] == e);
        }
        if edges[n - 1] == e && all.len() > before.len() {
            assert(all[all.len() - 1] == e);
        }
        if all.contains(e) && !before.contains(e) {
            let j = choose|j: int| 0 <= j < all.len() && all[j] == e;
            if j < before.len() {
                assert(before[j] == e);
            }
            assert(edges[n - 1] == e);
        }
    }
}

proof fn index_is_first(s: Seq<char>, c: char, i: int, k: int)
    requires
        0 <= i <= k <= s.len(),
        forall|j: int| i <= j < k ==> #[trigger] s[j] != c,
        k < s.len() ==> s[k] == c,
    ensures
        first_index(s, c, i) == k,
    decreases k - i,
{
    if i < k {
        assert(s[i] != c);
        index_is_first(s, c, i + 1, k);
    }
}

/// `NAME=VALUE` defines the name as the value, and a name alone is defined as 1.
pub proof fn arguments_define_names(name: Seq<char>, value: Seq<char>)
    requires
        !name.contains('='),
    ensures
        define_of(name + seq!['='] + value) == (name, value),
        define_of(name) == (name, "1"@),
{
    let def = name + seq!['='] + value;
    assert forall|j: int| 0 <= j < name.len() implies #[trigger] def[j] != '=' by {
        assert(name.contains(name[j]));
    }
    assert(def[name.len() as int] == '=');
    index_is_first(def, '=', 0, name.len() as int);
    assert(def.take(name.len() as int) =~= name);
    assert(def.skip(name.len() + 1int) =~= value);
    assert forall|j: int| 0 <= j < name.len() implies #[trigger] name[j] != '=' by {
        assert(name.contains(name[j]));
    }
    index_is_first(name, '=', 0, name.len() as int);
}

/// The directories outside are those that do not lie under the root, and under
/// which the root does not lie.
pub proof fn outside_is_neither_under_nor_over(
    root: Seq<char>,
    dirs: Seq<Seq<char>>,
    n: int,
    d: Seq<char>,
)
    requires
        0 <= n <= dirs.len(),
    ensures
        outside(root, dirs, n).contains(d) <==> !is_under(d, root) && !is_under(root, d) && exists|
            i: int,
        |
            0 <= i < n && #[trigger] dirs[i] == d,
    decreases n,
{
    if n > 0 {
        outside_is_neither_under_nor_over(root, dirs, n - 1, d);
        let before = outside(root, dirs, n - 1);
        let all = outside(root, dirs, n);
        if before.contains(d) {
            let j = choose|j: int| 0 <= j < before.len() && before[j] == d;
            assert(all[j] == d);
        }
        if all.contains(d) && !before.contains(d) {
            let j = choose|j: int| 0 <= j < all.len() && all[j] == d;
            if j < before.len() {
                assert(before[j] == d);
            }
            assert(dirs[n - 1] == d);
        }
        if dirs[n - 1] == d && all.len() > before.len() {
            assert(all[all.len() - 1] == d);
        }
    }
}

proof fn same_until(a: Seq<char>, b: Seq<char>, i: int, k: int)
    requires
        0 <= i <= k <= a.len(),
        a.len() <= b.len(),
        forall|j: int| 0 <= j < a.len() ==> #[trigger] b[j] == a[j],
        first_index(a, '/', i) == k,
        k == a.len() ==> a.len() == b.len() || b[a.len() as int] == '/',
    ensures
        first_index(b, '/', i) == k,
    decreases k - i,
{
    if i < k {
        assert(b[i] == a[i]);
        same_until(a, b, i + 1, k);
    } else if k < a.len() {
        if a[k] != '/' {
            first_index_bounds(a, '/', k + 1);
        }
        assert(b[k] == a[k]);
    }
}

proof fn steps_start_alike(dir: Seq<char>, path: Seq<char>, i: int)
    requires
        0 <= i <= dir.len(),
        dir.len() < path.len(),
        forall|j: int| 0 <= j < dir.len() ==> #[trigger] path[j] == dir[j],
        path[dir.len() as int] == '/',
    ensures
        steps(dir, i).len() <= steps(path, i).len(),
        forall|j: int| 0 <= j < steps(dir, i).len() ==> #[trigger] steps(path, i)[j] == steps(dir, i)[j],
    decreases dir.len() - i,
{
    if i < dir.len() {
        first_index_bounds(dir, '/', i);
        let k = first_index(dir, '/', i);
        same_until(dir, path, i, k);
        assert(path.subrange(i, k) =~= dir.subrange(i, k));
        let step = dir.subrange(i, k);
        if k < dir.len() {
            steps_start_alike(dir, path, k + 1);
        } else {
            assert(steps(dir, k + 1) =~= Seq::<Seq<char>>::empty());
        }
        let a = steps(dir, k + 1);
        let b = steps(path, k + 1);
        assert(a.len() <= b.len());
        if !(step.len() == 0 || (step == "."@ && i > 0)) {
            assert forall|j: int| 0 <= j < steps(dir, i).len() implies #[trigger] steps(path, i)[j]
                == steps(dir, i)[j] by {
                if j > 0 {
                    assert(steps(dir, i)[j] == a[j - 1]);
                    assert(steps(path, i)[j] == b[j - 1]);
                }
            }
        }
    }
}

/// What a directory holds lies under it.
pub proof fn contents_lie_under_their_directory(dir: Seq<char>, rest: Seq<char>)
    requires
        dir.len() > 0,
    ensures
        is_under(dir + seq!['/'] + rest, dir),
        is_under(dir, dir),
{
    let path = dir + seq!['/'] + rest;
    assert(path[dir.len() as int] == '/');
    assert(path[0] == dir[0]);
    assert(is_absolute(path) == is_absolute(dir));
    steps_start_alike(dir, path, 0);
}

/// One more call raises the count of the way in which it was found by one, and no
/// other.
pub proof fn calls_count_once(
    edges: Seq<CallGraphEdge>,
    e: CallGraphEdge,
    a: ResolutionKind,
    b: ResolutionKind,
)
    ensures
        count_of(edges.push(e), a, b, edges.len() + 1int) == count_of(edges, a, b, edges.len() as int)
            + (if e.resolution == a || e.resolution == b {
            1int
        } else {
            0int
        }),
{
    counts_look_back(edges, e, a, b, edges.len() as int);
}

proof fn counts_look_back(
    edges: Seq<CallGraphEdge>,
    e: CallGraphEdge,
    a: ResolutionKind,
    b: ResolutionKind,
    n: int,
)
    requires
        0 <= n <= edges.len(),
    ensures
        count_of(edges.push(e), a, b, n) == count_of(edges, a, b, n),
    decreases n,
{
    if n > 0 {
        counts_look_back(edges, e, a, b, n - 1);
        assert(edges.push(e)[n - 1] == edges[n - 1]);
    }
}

/// A query for calls asks for the callers by name, then for the callees, then for
/// the files, each only where it is given: a name is a function's whole name or
/// its last part, and a file is one whose path holds the text.
pub proof fn queries_ask_for_what_is_given(
    from: Option<Seq<char>>,
    to: Option<Seq<char>>,
    file: Option<Seq<char>>,
)
    ensures
        ({
            let none = Seq::<Seq<char>>::empty();
            let callers = match from {
                Some(f) => seq![f, "%::"@ + escaped(f)],
                None => none,
            };
            let callees = match to {
                Some(t) => seq![t, "%::"@ + escaped(t)],
                None => none,
            };
            let files = match file {
                Some(p) => seq!["%"@ + escaped(p) + "%"@],
                None => none,
            };
            calls_query(from, to, file).params == callers + callees + files
        }),
{
    let none = Seq::<Seq<char>>::empty();
    let callers = match from {
        Some(f) => seq![f, "%::"@ + escaped(f)],
        None => none,
    };
    let callees = match to {
        Some(t) => seq![t, "%::"@ + escaped(t)],
        None => none,
    };
    let files = match file {
        Some(p) => seq!["%"@ + escaped(p) + "%"@],
        None => none,
    };
    assert(calls_query(from, to, file).params =~= callers + callees + files);
}

/// Every question that is added to a query has its parameters where it says: the
/// first free numbers are those of the name and of its pattern.
pub proof fn questions_are_numbered(q: QueryV, column: Seq<char>, name: Seq<char>, part: Seq<char>)
    ensures
        ({
            let n = q.params.len();
            let a = q.with_name(column, name);
            let b = q.with_file(part);
            &&& a.params[n as int] == name
            &&& a.params.len() == n + 2
            &&& a.sql == q.sql + (" AND ("@ + column + " = ?"@ + decimal_of(n + 1) + " OR "@ + column
                + " LIKE ?"@ + decimal_of(n + 2) + " ESCAPE '!')"@)
            &&& b.params.len() == n + 1
            &&& forall|i: int|
                0 <= i < n ==> #[trigger] a.params[i] == q.params[i] && b.params[i] == q.params[i]
        }),
{
    let n = q.params.len();
    let a = q.with_name(column, name);
    let tail = " AND ("@ + column + " = ?"@ + decimal_of(n + 1) + " OR "@ + column + " LIKE ?"@
        + decimal_of(n + 2) + " ESCAPE '!')"@;
    assert(a.sql =~= q.sql + tail);
}

/// Of names in order every name is left, and no two that stand side by side are
/// the same.
pub proof fn repeats_are_dropped(names: Seq<Seq<char>>, n: int, x: Seq<char>)
    requires
        0 <= n <= names.len(),
    ensures
        without_repeats(names, n).contains(x) <==> exists|i: int|
            0 <= i < n && #[trigger] names[i] == x,
        n > 0 ==> without_repeats(names, n).len() > 0 && without_repeats(names, n).last()
            == names[n - 1],
        forall|i: int|
            0 < i < without_repeats(names, n).len() ==> #[trigger] without_repeats(names, n)[i]
                != without_repeats(names, n)[i - 1],
    decreases n,
{
    if n > 0 {
        repeats_are_dropped(names, n - 1, x);
        let before = without_repeats(names, n - 1);
        let after = without_repeats(names, n);
        if before.contains(x) {
            let j = choose|j: int| 0 <= j < before.len() && before[j] == x;
            assert(after[j] == x);
        }
        if names[n - 1] == x {
            assert(after[after.len() - 1] == x);
        }
        if after.contains(x) && !before.contains(x) {
            let j = choose|j: int| 0 <= j < after.len() && after[j] == x;
            if j < before.len() {
                assert(before[j] == x);
            }
            assert(names[n - 1] == x);
        }
        assert forall|i: int| 0 < i < after.len() implies #[trigger] after[i] != after[i - 1] by {
            if i < before.len() {
                assert(before[i] != before[i - 1]);
            }
        }
    }
}

/// A function without a body raises the count of these by one, and one with a
/// body does not.
pub proof fn functions_without_bodies_count(fns: Seq<FnV>, f: FnV)
    ensures
        bodiless(fns.push(f), fns.len() + 1int) == bodiless(fns, fns.len() as int) + (
        if f.is_defined {
            0int
        } else {
            1int
        }),
{
    bodies_look_back(fns, f, fns.len() as int);
}

proof fn bodies_look_back(fns: Seq<FnV>, f: FnV, n: int)
    requires
        0 <= n <= fns.len(),
    ensures
        bodiless(fns.push(f), n) == bodiless(fns, n),
    decreases n,
{
    if n > 0 {
        bodies_look_back(fns, f, n - 1);
        assert(fns.push(f)[n - 1] == fns[n - 1]);
    }
}

proof fn digits_are_digits(n: nat)
    ensures
        decimal_of(n).len() > 0,
        forall|i: int| 0 <= i < decimal_of(n).len() ==> '0' <= #[trigger] decimal_of(n)[i] <= '9',
        n > 0 ==> decimal_of(n)[0] != '0',
    decreases n,
{
    if n >= 10 {
        digits_are_digits(n / 10);
        let before = decimal_of(n / 10);
        assert forall|i: int| 0 <= i < decimal_of(n).len() implies '0' <= #[trigger] decimal_of(
            n,
        )[i] <= '9' by {
            if i < before.len() {
                assert(decimal_of(n)[i] == before[i]);
            }
        }
        assert(decimal_of(n)[0] == before[0]);
    }
}

/// A number is written in digits, the first of which is no zero unless the number
/// is zero, and reads back as it was.
pub proof fn numbers_read_back(n: nat)
    requires
        n <= u128::MAX,
    ensures
        parsed_number(decimal_of(n), 10) == Some(n),
        forall|i: int| 0 <= i < decimal_of(n).len() ==> '0' <= #[trigger] decimal_of(n)[i] <= '9',
        n > 0 ==> decimal_of(n)[0] != '0',
{
    digits_are_digits(n);
    let s = decimal_of(n);
    assert(s.take(s.len() as int) =~= s);
    digits_read_back(n, s);
    assert(s[0] != '+');
}

proof fn digits_read_back(n: nat, s: Seq<char>)
    requires
        decimal_of(n).len() <= s.len(),
        s.take(decimal_of(n).len() as int) == decimal_of(n),
    ensures
        digits_value(s, decimal_of(n).len() as int, 10) == Some(n),
    decreases n,
{
    let d = decimal_of(n);
    let len = d.len() as int;
    digits_are_digits(n);
    assert(s[len - 1] == d[len - 1]);
    if n >= 10 {
        let before = decimal_of(n / 10);
        assert(s.take(len - 1) =~= before) by {
            assert forall|i: int| 0 <= i < len - 1 implies s.take(len - 1)[i] == before[i] by {
                assert(s.take(len)[i] == d[i]);
            }
        }
        digits_read_back(n / 10, s);
        assert(len - 1 == before.len());
    } else {
        assert(digits_value(s, 0, 10) == Some(0nat));
    }
}

/// The budget of the solver is the number that the environment gives; a zero there
/// lifts the limit, and where the environment gives no number the budget stays.
pub proof fn the_environment_sets_the_budget(n: u64, text: Seq<char>, budget: Option<u64>)
    requires
        parsed_number(text, 10) is None,
        trimmed(text) != "0"@,
    ensures
        budget_of(Some(decimal_of(n as nat)), budget) == if n == 0 {
            None
        } else {
            Some(n)
        },
        budget_of(Some(text), budget) == budget,
        budget_of(None, budget) == budget,
{
    let d = decimal_of(n as nat);
    numbers_read_back(n as nat);
    digits_are_digits(n as nat);
    assert('0' <= d[0] <= '9' && '0' <= d[d.len() - 1] <= '9');
    assert(trimmed(d) == d);
    reveal_strlit("0");
    assert("0"@.len() == 1 && "0"@[0] == '0');
    if n == 0 {
        assert(d =~= "0"@);
    } else {
        assert(d[0] != '0');
    }
}

/// Each argument defines a macro of its own, in the order of the arguments.
pub proof fn arguments_define_in_order(defs: Seq<Seq<char>>, more: Seq<Seq<char>>)
    ensures
        defines_of(defs + more) == defines_of(defs) + defines_of(more),
        forall|def: Seq<char>| defines_of(seq![def]) == seq![#[trigger] define_of(def)],
{
    assert(defines_of(defs + more) =~= defines_of(defs) + defines_of(more));
    assert forall|def: Seq<char>| defines_of(seq![def]) == seq![#[trigger] define_of(def)] by {
        assert(defines_of(seq![def]) =~= seq![define_of(def)]);
    }
}

/// A declaration is at the places from its first character to right behind its
/// last, on its own line, and nowhere else.
pub proof fn declarations_are_at_their_names(c: Candidate, line: i64, col: i64)
    ensures
        declared_at(c, c.line, c.col),
        line != c.line ==> !declared_at(c, line, col),
        col < c.col ==> !declared_at(c, line, col),
        declared_at(c, line, col) && c.name@.len() == 0 ==> col == c.col,
        forall|k: int|
            0 <= k <= c.name@.len() && line == c.line && col == c.col + byte_len(
                #[trigger] c.name@.take(k),
            ) ==> declared_at(c, line, col),
        col > c.col + byte_len(c.name@) ==> !declared_at(c, line, col),
{
    assert forall|k: int|
        0 <= k <= c.name@.len() && line == c.line && col == c.col + byte_len(
            #[trigger] c.name@.take(k),
        ) implies declared_at(c, line, col) by {
        byte_len_concat(c.name@.take(k), c.name@.skip(k));
        assert(c.name@.take(k) + c.name@.skip(k) =~= c.name@);
    }
}

/// The sign of a number stands before its digits, and the digits read back.
pub proof fn signed_numbers_read_back(n: i64)
    ensures
        n >= 0 ==> parsed_number(signed_text(n as int), 10) == Some(n as nat),
        n < 0 ==> signed_text(n as int)[0] == '-' && parsed_number(
            signed_text(n as int).skip(1),
            10,
        ) == Some((-n) as nat),
{
    reveal_strlit("-");
    assert("-"@.len() == 1 && "-"@[0] == '-');
    if n < 0 {
        numbers_read_back((-n) as nat);
        assert(signed_text(n as int).skip(1) =~= decimal_of((-n) as nat));
    } else {
        numbers_read_back(n as nat);
    }
}

} // verus!
