//! The functions that stand for names that nothing declares.

use crate::index::laws::{plain_calls_lead_somewhere, stand_ins_have_no_name};
use crate::index::project::{leads_nowhere, stand_in, uses_in, with_use, UseV};
use crate::ir::ids::FnId;
use crate::ir::program::ProgramV;
use crate::ir::symbol::{FnV, SiteV, SymbolsV};
use crate::text::comes_before;
use vstd::prelude::*;

verus! {

proof fn before_is_total(a: Seq<char>, b: Seq<char>, i: int)
    requires
        0 <= i <= a.len(),
        i <= b.len(),
        forall|j: int| 0 <= j < i ==> a[j] == b[j],
        a != b,
        !comes_before(a, b, i),
    ensures
        comes_before(b, a, i),
    decreases a.len() - i,
{
    if i >= a.len() {
        assert(a =~= b);
    } else if i < b.len() && a[i] == b[i] {
        before_is_total(a, b, i + 1);
    }
}

proof fn before_is_transitive(a: Seq<char>, b: Seq<char>, c: Seq<char>, i: int)
    requires
        0 <= i,
        comes_before(a, b, i),
        comes_before(b, c, i),
    ensures
        comes_before(a, c, i),
    decreases a.len() - i,
{
    if i < a.len() && i < b.len() && i < c.len() && a[i] == b[i] && b[i] == c[i] {
        before_is_transitive(a, b, c, i + 1);
    }
}

proof fn before_is_strict(a: Seq<char>, i: int)
    requires
        0 <= i,
    ensures
        !comes_before(a, a, i),
    decreases a.len() - i,
{
    if i < a.len() {
        before_is_strict(a, i + 1);
    }
}

/// Whether uses are in the order of their names, each name once.
spec fn ordered(uses: Seq<UseV>) -> bool {
    forall|i: int, j: int|
        0 <= i < j < uses.len() ==> comes_before(
            (#[trigger] uses[i]).name,
            (#[trigger] uses[j]).name,
            0,
        )
}

proof fn with_use_ordered(uses: Seq<UseV>, u: UseV, i: int)
    requires
        0 <= i <= uses.len(),
        ordered(uses),
        forall|k: int| 0 <= k < i ==> comes_before((#[trigger] uses[k]).name, u.name, 0),
    ensures
        ordered(with_use(uses, u, i)),
    decreases uses.len() - i,
{
    let t = with_use(uses, u, i);
    if i >= uses.len() {
        assert forall|a: int, b: int| 0 <= a < b < t.len() implies comes_before(
            (#[trigger] t[a]).name,
            (#[trigger] t[b]).name,
            0,
        ) by {
            assert(t[a] == uses[a]);
            if b < uses.len() {
                assert(t[b] == uses[b]);
            }
        }
    } else if uses[i].name == u.name {
        assert forall|a: int, b: int| 0 <= a < b < t.len() implies comes_before(
            (#[trigger] t[a]).name,
            (#[trigger] t[b]).name,
            0,
        ) by {
            assert(t[a].name == uses[a].name && t[b].name == uses[b].name);
        }
    } else if comes_before(u.name, uses[i].name, 0) {
        assert forall|a: int, b: int| 0 <= a < b < t.len() implies comes_before(
            (#[trigger] t[a]).name,
            (#[trigger] t[b]).name,
            0,
        ) by {
            let x = if a < i {
                a
            } else {
                a - 1
            };
            let y = if b < i {
                b
            } else {
                b - 1
            };
            if a != i {
                assert(t[a] == uses[x]);
            }
            if b != i {
                assert(t[b] == uses[y]);
            }
            if a == i && y != i {
                before_is_transitive(u.name, uses[i].name, uses[y].name, 0);
            }
        }
    } else {
        before_is_total(u.name, uses[i].name, 0);
        with_use_ordered(uses, u, i + 1);
    }
}

/// Whether a name is that of a call that leads nowhere.
spec fn is_wanted(sites: Seq<SiteV>, name: Seq<char>) -> bool {
    exists|k: int|
        0 <= k < sites.len() && leads_nowhere(#[trigger] sites[k]) && sites[k].callee_name == name
}

proof fn with_use_names(uses: Seq<UseV>, u: UseV, i: int, k: int)
    requires
        0 <= k < with_use(uses, u, i).len(),
    ensures
        with_use(uses, u, i)[k].name == u.name || exists|j: int|
            0 <= j < uses.len() && (#[trigger] uses[j]).name == with_use(uses, u, i)[k].name,
    decreases uses.len() - i,
{
    let t = with_use(uses, u, i);
    if i < 0 || i >= uses.len() {
        if k < uses.len() {
            assert(uses[k].name == t[k].name);
        }
    } else if uses[i].name == u.name {
        assert(uses[k].name == t[k].name);
    } else if comes_before(u.name, uses[i].name, 0) {
        if k < i {
            assert(uses[k].name == t[k].name);
        } else if k > i {
            assert(uses[k - 1].name == t[k].name);
        }
    } else {
        with_use_names(uses, u, i + 1, k);
    }
}

proof fn uses_facts(sites: Seq<SiteV>, n: int)
    requires
        n <= sites.len(),
    ensures
        ordered(uses_in(sites, n)),
        forall|k: int|
            0 <= k < uses_in(sites, n).len() ==> is_wanted(
                sites,
                (#[trigger] uses_in(sites, n)[k]).name,
            ),
    decreases n,
{
    if n > 0 {
        uses_facts(sites, n - 1);
        let before = uses_in(sites, n - 1);
        let after = uses_in(sites, n);
        if leads_nowhere(sites[n - 1]) {
            let u = UseV {
                name: sites[n - 1].callee_name,
                file: sites[n - 1].span.file,
                line: sites[n - 1].span.line,
            };
            with_use_ordered(before, u, 0);
            assert(is_wanted(sites, u.name));
            assert forall|k: int| 0 <= k < after.len() implies is_wanted(
                sites,
                (#[trigger] after[k]).name,
            ) by {
                with_use_names(before, u, 0, k);
                if after[k].name != u.name {
                    let j = choose|j: int|
                        0 <= j < before.len() && (#[trigger] before[j]).name == after[k].name;
                    assert(is_wanted(sites, before[j].name));
                }
            }
        }
    }
}

proof fn externs_add(s: SymbolsV, uses: Seq<UseV>, n: int)
    requires
        0 <= n <= uses.len(),
    ensures
        ({
            let t = s.with_externs(uses, n);
            &&& s.functions.len() <= t.functions.len()
            &&& forall|i: int|
                0 <= i < s.functions.len() ==> #[trigger] t.functions[i] == s.functions[i]
            &&& forall|i: int|
                s.functions.len() <= i < t.functions.len() ==> exists|k: int|
                    0 <= k < n && (#[trigger] uses[k]).name == (#[trigger] t.functions[i]).name
            &&& forall|i: int|
                s.functions.len() <= i < t.functions.len() ==> s.resolve(
                    (#[trigger] t.functions[i]).name,
                ) is None && !t.functions[i].is_defined
        }),
    decreases n,
{
    if n > 0 {
        externs_add(s, uses, n - 1);
        stand_ins_have_no_name(s, uses, n - 1, uses[n - 1].name, None);
        let a = s.with_externs(uses, n - 1);
        let b = s.with_externs(uses, n);
        assert forall|i: int| s.functions.len() <= i < b.functions.len() implies exists|k: int|
            0 <= k < n && (#[trigger] uses[k]).name == (#[trigger] b.functions[i]).name by {
            if i < a.functions.len() {
                assert(b.functions[i] == a.functions[i]);
                let k = choose|k: int|
                    0 <= k < n - 1 && (#[trigger] uses[k]).name == a.functions[i].name;
                assert(uses[k].name == b.functions[i].name);
            } else {
                assert(uses[n - 1].name == b.functions[i].name);
            }
        }
        assert forall|i: int| s.functions.len() <= i < b.functions.len() implies s.resolve(
            (#[trigger] b.functions[i]).name,
        ) is None && !b.functions[i].is_defined by {
            if i < a.functions.len() {
                assert(b.functions[i] == a.functions[i]);
            }
        }
    }
}

proof fn externs_differ(s: SymbolsV, uses: Seq<UseV>, n: int)
    requires
        0 <= n <= uses.len(),
        ordered(uses),
    ensures
        ({
            let t = s.with_externs(uses, n);
            forall|i: int, j: int|
                s.functions.len() <= i < j < t.functions.len() ==> (#[trigger] t.functions[i]).name
                    != (#[trigger] t.functions[j]).name
        }),
    decreases n,
{
    if n > 0 {
        externs_differ(s, uses, n - 1);
        externs_add(s, uses, n - 1);
        let a = s.with_externs(uses, n - 1);
        let b = s.with_externs(uses, n);
        assert forall|i: int, j: int|
            s.functions.len() <= i < j < b.functions.len() implies (#[trigger] b.functions[i]).name
            != (#[trigger] b.functions[j]).name by {
            assert(b.functions[i] == a.functions[i]);
            if j < a.functions.len() {
                assert(b.functions[j] == a.functions[j]);
            } else {
                let k = choose|k: int|
                    0 <= k < n - 1 && (#[trigger] uses[k]).name == a.functions[i].name;
                assert(comes_before(uses[k].name, uses[n - 1].name, 0));
                before_is_strict(uses[k].name, 0);
            }
        }
    }
}

/// Functions stand in for names that calls use and nothing declares, one for
/// each name and none of them with a body; all other functions stay as they are.
pub proof fn stand_ins_are_one_per_name(p: ProgramV)
    ensures
        ({
            let n = p.symbols.functions.len();
            let all = p.with_extern_callees().symbols.functions;
            &&& n <= all.len()
            &&& forall|i: int| 0 <= i < n ==> #[trigger] all[i] == p.symbols.functions[i]
            &&& forall|i: int|
                n <= i < all.len() ==> p.symbols.resolve((#[trigger] all[i]).name) is None
                    && !all[i].is_defined
            &&& forall|i: int, j: int|
                n <= i < j < all.len() ==> (#[trigger] all[i]).name != (#[trigger] all[j]).name
        }),
{
    let sites = p.symbols.call_sites;
    let uses = uses_in(sites, sites.len() as int);
    uses_facts(sites, sites.len() as int);
    externs_add(p.symbols, uses, uses.len() as int);
    externs_differ(p.symbols, uses, uses.len() as int);
}

/// Whether a call has become one of a function of its name that stands in.
pub open spec fn is_bound(from: nat, all: Seq<FnV>, c: SiteV) -> bool {
    c.is_direct && exists|i: int|
        from <= i < all.len() && (#[trigger] all[i]).name == c.callee_name && c.callee_fn_id
            == Some(all[i].id)
}

proof fn bound_by(s: SymbolsV, uses: Seq<UseV>, n: int, k: int)
    requires
        0 <= n <= uses.len(),
        0 <= k < s.call_sites.len(),
        leads_nowhere(s.call_sites[k]),
    ensures
        ({
            let t = s.with_externs(uses, n);
            let c = t.call_sites[k];
            &&& t.call_sites.len() == s.call_sites.len()
            &&& c.callee_name == s.call_sites[k].callee_name
            &&& leads_nowhere(c) || is_bound(s.functions.len(), t.functions, c)
        }),
    decreases n,
{
    if n > 0 {
        bound_by(s, uses, n - 1, k);
        externs_add(s, uses, n - 1);
        let a = s.with_externs(uses, n - 1);
        let b = s.with_externs(uses, n);
        let c = a.call_sites[k];
        let d = b.call_sites[k];
        let from = s.functions.len();
        if a.resolve(uses[n - 1].name) is None {
            assert(b.functions == a.functions.push(stand_in(FnId(a.next_fn), uses[n - 1])));
            if is_bound(from, a.functions, c) {
                assert(d == c);
                let i = choose|i: int|
                    from <= i < a.functions.len() && (#[trigger] a.functions[i]).name
                        == c.callee_name && c.callee_fn_id == Some(a.functions[i].id);
                assert(b.functions[i] == a.functions[i]);
                assert(is_bound(from, b.functions, d));
            } else if c.callee_name == uses[n - 1].name {
                let i = a.functions.len() as int;
                assert(b.functions[i].name == d.callee_name);
                assert(d.callee_fn_id == Some(b.functions[i].id));
                assert(is_bound(from, b.functions, d));
            }
        }
    }
}

/// A call by a plain name that leads nowhere and that nothing declares becomes a
/// call of the function that stands in for its name.
pub proof fn calls_are_bound_to_stand_ins(p: ProgramV, k: int)
    requires
        0 <= k < p.symbols.call_sites.len(),
        leads_nowhere(p.symbols.call_sites[k]),
        p.symbols.resolve(p.symbols.call_sites[k].callee_name) is None,
    ensures
        is_bound(
            p.symbols.functions.len(),
            p.with_extern_callees().symbols.functions,
            p.with_extern_callees().symbols.call_sites[k],
        ),
{
    let sites = p.symbols.call_sites;
    let uses = uses_in(sites, sites.len() as int);
    bound_by(p.symbols, uses, uses.len() as int, k);
    if leads_nowhere(p.with_extern_callees().symbols.call_sites[k]) {
        plain_calls_lead_somewhere(p, k);
    }
}

proof fn externs_stay(s: SymbolsV, uses: Seq<UseV>, n: int)
    requires
        n <= uses.len(),
        forall|k: int| 0 <= k < n ==> s.resolve((#[trigger] uses[k]).name) is Some,
    ensures
        s.with_externs(uses, n) == s,
    decreases n,
{
    if n > 0 {
        externs_stay(s, uses, n - 1);
    }
}

/// Once functions stand in for what nothing declares, nothing is left to be
/// done: a second time changes nothing.
pub proof fn stand_ins_come_once(p: ProgramV)
    ensures
        p.with_extern_callees().with_extern_callees() == p.with_extern_callees(),
{
    let q = p.with_extern_callees();
    let old_uses = uses_in(p.symbols.call_sites, p.symbols.call_sites.len() as int);
    let sites = q.symbols.call_sites;
    let uses = uses_in(sites, sites.len() as int);
    uses_facts(sites, sites.len() as int);
    assert forall|k: int| 0 <= k < uses.len() implies q.symbols.resolve(
        (#[trigger] uses[k]).name,
    ) is Some by {
        assert(is_wanted(sites, uses[k].name));
        let i = choose|i: int|
            0 <= i < sites.len() && leads_nowhere(#[trigger] sites[i]) && sites[i].callee_name
                == uses[k].name;
        sites_keep_names(p.symbols, old_uses, old_uses.len() as int, i);
        plain_calls_lead_somewhere(p, i);
        stand_ins_have_no_name(p.symbols, old_uses, old_uses.len() as int, uses[k].name, None);
    }
    externs_stay(q.symbols, uses, uses.len() as int);
}

proof fn sites_keep_names(s: SymbolsV, uses: Seq<UseV>, n: int, k: int)
    requires
        n <= uses.len(),
    ensures
        s.with_externs(uses, n).call_sites.len() == s.call_sites.len(),
        0 <= k < s.call_sites.len() ==> s.with_externs(uses, n).call_sites[k].callee_name
            == s.call_sites[k].callee_name,
    decreases n,
{
    if n > 0 {
        sites_keep_names(s, uses, n - 1, k);
    }
}

} // verus!
