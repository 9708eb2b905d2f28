//! Names that are put off, names that several functions have, and names of
//! names.

use crate::index::lower::calls::{fitting, ArgsV};
use crate::index::lower::nodes::{is_designated, pair_value, pair_value_smaller};
use crate::index::lower::state::{ns_prefix, LowerV, PendV};
use crate::index::names::{normal_name, normal_prefix, opening, without_args};
use crate::index::syntax::{text_of, NodeKind, NodeV};
use crate::ir::flow::FlowV;
use crate::ir::ids::{FnId, Span, VarId};
use crate::ir::symbol::SymbolsV;
use crate::text::{is_white, trimmed_end};
use vstd::prelude::*;

verus! {

proof fn pendings_keep_moves(s: LowerV, list: Seq<PendV>, i: int, k: int)
    requires
        0 <= i <= k,
    ensures
        ({
            let a = s.after_pendings(list, i).p.flow;
            let b = s.after_pendings(list, k).p.flow;
            &&& a.len() <= b.len()
            &&& forall|m: int| 0 <= m < a.len() ==> #[trigger] b[m] == a[m]
        }),
    decreases k - i,
{
    if i < k {
        pendings_keep_moves(s, list, i, k - 1);
        let a = s.after_pendings(list, i).p.flow;
        let q = s.after_pendings(list, k - 1);
        let b = s.after_pendings(list, k).p.flow;
        assert(q.p.flow.len() <= b.len());
        assert forall|m: int| 0 <= m < q.p.flow.len() implies #[trigger] b[m] == q.p.flow[m] by {}
        assert forall|m: int| 0 <= m < a.len() implies #[trigger] b[m] == a[m] by {
            assert(q.p.flow[m] == a[m]);
        }
    }
}

/// A name that meant nothing where it was used is looked at once more when the
/// whole file is known: a function that it means then is moved by its address, and
/// a variable by what it holds.
pub proof fn names_put_off_are_moved(s: LowerV, i: int, dst: VarId, name: Seq<char>)
    requires
        0 <= i < s.pending.len(),
        s.pending[i] == (PendV::RhsIdent { dst, name }),
    ensures
        ({
            let q = LowerV { pending: Seq::empty(), ..s }.after_pendings(s.pending, i);
            let end = s.settled().p.flow;
            match q.p.symbols.resolve_in_scope(name, Some(q.file)) {
                Some(f) => end.contains(FlowV::AddrOfFn { dst, callee: f }),
                None => match q.lookup(name) {
                    Some(v) => end.contains(FlowV::Copy { dst, src: v }),
                    None => true,
                },
            }
        }),
{
    let a = LowerV { pending: Seq::empty(), ..s };
    let n = s.pending.len() as int;
    pendings_keep_moves(a, s.pending, i + 1, n);
    let q = a.after_pendings(s.pending, i);
    let r = a.after_pendings(s.pending, i + 1);
    let end = s.settled().p.flow;
    assert(r == q.after_pending(s.pending[i]));
    if r.p.flow.len() > q.p.flow.len() {
        let m = q.p.flow.len() as int;
        assert(end[m] == r.p.flow[m]);
    }
}

/// The same for the address of a name.
pub proof fn addresses_put_off_are_moved(s: LowerV, i: int, dst: VarId, name: Seq<char>)
    requires
        0 <= i < s.pending.len(),
        s.pending[i] == (PendV::AddrOfIdent { dst, name }),
    ensures
        ({
            let q = LowerV { pending: Seq::empty(), ..s }.after_pendings(s.pending, i);
            let end = s.settled().p.flow;
            match q.p.symbols.resolve_in_scope(name, Some(q.file)) {
                Some(f) => end.contains(FlowV::AddrOfFn { dst, callee: f }),
                None => match q.lookup(name) {
                    Some(v) => end.contains(FlowV::AddrOfVar { dst, src: v }),
                    None => true,
                },
            }
        }),
{
    let a = LowerV { pending: Seq::empty(), ..s };
    let n = s.pending.len() as int;
    pendings_keep_moves(a, s.pending, i + 1, n);
    let q = a.after_pendings(s.pending, i);
    let r = a.after_pendings(s.pending, i + 1);
    let end = s.settled().p.flow;
    assert(r == q.after_pending(s.pending[i]));
    if r.p.flow.len() > q.p.flow.len() {
        let m = q.p.flow.len() as int;
        assert(end[m] == r.p.flow[m]);
    }
}

/// The same for a name that is stored: the address of the function that it means
/// is stored where the name was to be.
pub proof fn names_put_off_are_stored(
    s: LowerV,
    i: int,
    dst: VarId,
    name: Seq<char>,
    span: Span,
)
    requires
        0 <= i < s.pending.len(),
        s.pending[i] == (PendV::FieldStore { dst, name, span }),
    ensures
        ({
            let q = LowerV { pending: Seq::empty(), ..s }.after_pendings(s.pending, i);
            let end = s.settled().p.flow;
            match q.p.symbols.resolve_in_scope(name, Some(q.file)) {
                Some(f) => exists|src: VarId|
                    #[trigger] end.contains(FlowV::AddrOfFn { dst: src, callee: f })
                        && end.contains(FlowV::Store { dst, src }),
                None => true,
            }
        }),
{
    let a = LowerV { pending: Seq::empty(), ..s };
    let n = s.pending.len() as int;
    pendings_keep_moves(a, s.pending, i + 1, n);
    let q = a.after_pendings(s.pending, i);
    let r = a.after_pendings(s.pending, i + 1);
    let end = s.settled().p.flow;
    assert(r == q.after_pending(s.pending[i]));
    if let Some(f) = q.p.symbols.resolve_in_scope(name, Some(q.file)) {
        let m = q.p.flow.len() as int;
        let src = q.next_var();
        assert(r.p.flow[m] == FlowV::AddrOfFn { dst: src, callee: f });
        assert(r.p.flow[m + 1] == FlowV::Store { dst, src });
        assert(end[m] == r.p.flow[m]);
        assert(end[m + 1] == r.p.flow[m + 1]);
        assert(end.contains(FlowV::AddrOfFn { dst: src, callee: f }));
        assert(end.contains(FlowV::Store { dst, src }));
    }
}

/// Whether a function takes as many parameters as there are arguments.
pub open spec fn takes(symbols: SymbolsV, f: FnId, args: ArgsV) -> bool {
    symbols.function(f) is Some && (symbols.function(f)->0).params.len() == args.count
}

proof fn fitting_are_those_that_take(
    symbols: SymbolsV,
    fns: Seq<FnId>,
    args: ArgsV,
    k: int,
    f: FnId,
)
    requires
        0 <= k <= fns.len(),
    ensures
        fitting(symbols, fns, args, k).contains(f) <==> takes(symbols, f, args) && exists|i: int|
            0 <= i < k && #[trigger] fns[i] == f,
    decreases k,
{
    if k > 0 {
        fitting_are_those_that_take(symbols, fns, args, k - 1, f);
        let before = fitting(symbols, fns, args, k - 1);
        let after = fitting(symbols, fns, args, k);
        if before.contains(f) {
            let j = choose|j: int| 0 <= j < before.len() && before[j] == f;
            assert(after[j] == f);
        }
        if fns[k - 1] == f && takes(symbols, f, args) {
            assert(after[after.len() - 1] == f);
        }
        if after.contains(f) && !before.contains(f) {
            let j = choose|j: int| 0 <= j < after.len() && after[j] == f;
            if j < before.len() {
                assert(before[j] == f);
            }
            assert(fns[k - 1] == f);
        }
    }
}

/// In C++ a call by name means those functions of the name that take as many
/// parameters as there are arguments, and all of them where none does. In C it
/// means the one function that the name means.
pub proof fn overloads_are_chosen_by_their_parameters(
    s: LowerV,
    name: Seq<char>,
    args: ArgsV,
    f: FnId,
)
    ensures
        ({
            let all = s.p.symbols.candidates(name, Some(s.file));
            let chosen = s.chosen(name, None, args);
            let some_takes = exists|i: int|
                0 <= i < all.len() && takes(s.p.symbols, #[trigger] all[i], args);
            &&& s.is_cpp && some_takes ==> (chosen.contains(f) <==> all.contains(f) && takes(
                s.p.symbols,
                f,
                args,
            ))
            &&& s.is_cpp && !some_takes ==> chosen == all
            &&& !s.is_cpp ==> (chosen.contains(f) <==> s.p.symbols.resolve_in_scope(
                name,
                Some(s.file),
            ) == Some(f))
        }),
{
    let all = s.p.symbols.candidates(name, Some(s.file));
    let n = all.len() as int;
    let fit = fitting(s.p.symbols, all, args, n);
    fitting_are_those_that_take(s.p.symbols, all, args, n, f);
    if all.contains(f) {
        let i = choose|i: int| 0 <= i < all.len() && all[i] == f;
        assert(all[i] == f);
    }
    if exists|i: int| 0 <= i < all.len() && takes(s.p.symbols, #[trigger] all[i], args) {
        let i = choose|i: int| 0 <= i < all.len() && takes(s.p.symbols, #[trigger] all[i], args);
        fitting_are_those_that_take(s.p.symbols, all, args, n, all[i]);
        assert(fit.contains(all[i]));
        let j = choose|j: int| 0 <= j < fit.len() && fit[j] == all[i];
        assert(fit.len() > 0);
    } else if fit.len() > 0 {
        let g = fit[0];
        fitting_are_those_that_take(s.p.symbols, all, args, n, g);
        assert(fit.contains(g));
        let i = choose|i: int| 0 <= i < n && #[trigger] all[i] == g;
        assert(takes(s.p.symbols, all[i], args));
    }
    if !s.is_cpp {
        if let Some(g) = s.p.symbols.resolve_in_scope(name, Some(s.file)) {
            assert(seq![g][0] == g);
        }
    }
}

/// In a namespace a name has that of the namespace before it; one without a name
/// puts nothing before it.
pub proof fn namespaces_stand_before_names(s: LowerV, outer: Seq<char>, name: Seq<char>)
    ensures
        (LowerV { ns: s.ns.push(Some(outer)), ..s }).qualified(name) == s.qualified(
            outer + "::"@ + name,
        ),
        (LowerV { ns: s.ns.push(None), ..s }).qualified(name) == s.qualified(name),
        s.ns.len() == 0 ==> s.qualified(name) == name,
{
    let n = s.ns.len() as int;
    let some = s.ns.push(Some(outer));
    let none = s.ns.push(None);
    prefix_looks_back(s.ns, some, n);
    prefix_looks_back(s.ns, none, n);
    let p = ns_prefix(s.ns, n);
    assert(ns_prefix(some, n + 1) == p + outer + "::"@);
    assert(p + outer + "::"@ + name =~= p + (outer + "::"@ + name));
    if n == 0 {
        assert(p + name =~= name);
    }
}

proof fn prefix_looks_back(a: Seq<Option<Seq<char>>>, b: Seq<Option<Seq<char>>>, n: int)
    requires
        n <= a.len() <= b.len(),
        forall|i: int| 0 <= i < a.len() ==> #[trigger] b[i] == a[i],
    ensures
        ns_prefix(a, n) == ns_prefix(b, n),
    decreases n,
{
    if n > 0 {
        assert(b[n - 1] == a[n - 1]);
        prefix_looks_back(a, b, n - 1);
    }
}

proof fn plain_text_stays(text: Seq<char>, n: int)
    requires
        0 <= n <= text.len(),
        forall|i: int| 0 <= i < n ==> #[trigger] text[i] != '<' && !is_white(text[i]),
    ensures
        normal_prefix(text, n) == (text.take(n), 0nat),
    decreases n,
{
    if n > 0 {
        plain_text_stays(text, n - 1);
        assert(text[n - 1] != '<');
        assert(text.take(n - 1).push(text[n - 1]) =~= text.take(n));
    } else {
        assert(text.take(0) =~= Seq::<char>::empty());
    }
}

proof fn arguments_are_skipped(text: Seq<char>, from: int, n: int)
    requires
        0 <= from < n <= text.len(),
        text[from] == '<',
        normal_prefix(text, from).1 == 0,
        forall|i: int| from < i < n ==> #[trigger] text[i] != '<' && text[i] != '>',
    ensures
        normal_prefix(text, n) == (normal_prefix(text, from).0, 1nat),
    decreases n,
{
    if n - 1 > from {
        arguments_are_skipped(text, from, n - 1);
        assert(text[n - 1] != '<' && text[n - 1] != '>');
    }
}

/// A name without template arguments and white space is itself; template
/// arguments are left out.
pub proof fn names_have_no_arguments(name: Seq<char>, args: Seq<char>)
    requires
        forall|i: int| 0 <= i < name.len() ==> #[trigger] name[i] != '<' && !is_white(name[i]),
        !args.contains('<'),
        !args.contains('>'),
    ensures
        normal_name(name) == name,
        normal_name(name + seq!['<'] + args + seq!['>']) == name,
{
    plain_text_stays(name, name.len() as int);
    assert(name.take(name.len() as int) =~= name);
    let text = name + seq!['<'] + args + seq!['>'];
    let k = name.len() as int;
    assert forall|i: int| 0 <= i < k implies #[trigger] text[i] != '<' && !is_white(text[i]) by {
        assert(text[i] == name[i]);
    }
    plain_text_stays(text, k);
    assert(text.take(k) =~= name);
    assert(text[k] == '<');
    let end = k + 1 + args.len();
    assert forall|i: int| k < i < end implies #[trigger] text[i] != '<' && text[i] != '>' by {
        assert(text[i] == args[i - k - 1]);
        assert(args.contains(args[i - k - 1]));
    }
    arguments_are_skipped(text, k, end);
    assert(text[end] == '>');
    assert(normal_prefix(text, end + 1) == (name, 0nat));
    assert(text.len() == end + 1);
}

proof fn opening_is_found(t: Seq<char>, k: int, i: int)
    requires
        0 <= k < i <= t.len(),
        t[k] == '<',
        forall|j: int| k < j < i ==> #[trigger] t[j] != '<' && t[j] != '>',
    ensures
        opening(t, i, 1) == Some(k),
    decreases i,
{
    if i - 1 > k {
        assert(t[i - 1] != '<' && t[i - 1] != '>');
        opening_is_found(t, k, i - 1);
    }
}

/// The template arguments at the end of a name are left out.
pub proof fn arguments_at_the_end_are_left_out(name: Seq<char>, args: Seq<char>)
    requires
        !args.contains('<'),
        !args.contains('>'),
    ensures
        without_args(name + seq!['<'] + args + seq!['>']) == trimmed_end(name),
{
    let t = name + seq!['<'] + args + seq!['>'];
    let k = name.len() as int;
    let n = t.len() as int;
    assert(t.last() == '>');
    assert(trimmed_end(t) == t);
    assert forall|j: int| k < j < n - 1 implies #[trigger] t[j] != '<' && t[j] != '>' by {
        assert(t[j] == args[j - k - 1]);
        assert(args.contains(args[j - k - 1]));
    }
    opening_is_found(t, k, n - 1);
    assert(opening(t, n, 0) == Some(k));
    assert(t.take(k) =~= name);
}

/// The functions that the parts of an initializer name are among those that an
/// array holds.
pub proof fn arrays_hold_the_functions_named(s: LowerV, array: VarId, n: NodeV, i: int, f: FnId)
    requires
        0 <= i < n.children.len(),
        n.children[i].kind == NodeKind::Identifier,
        s.p.symbols.resolve_in_scope(text_of(s.src, n.children[i]), Some(s.file)) == Some(f),
    ensures
        s.with_array_members(array, n).p.flow.contains(FlowV::ArrayFnMember { array, callee: f }),
{
    parts_hold_the_functions_named(s, array, n, i, n.children.len() as int, f);
}

proof fn parts_hold_the_functions_named(
    s: LowerV,
    array: VarId,
    n: NodeV,
    i: int,
    k: int,
    f: FnId,
)
    requires
        0 <= i < k <= n.children.len(),
        n.children[i].kind == NodeKind::Identifier,
        s.p.symbols.resolve_in_scope(text_of(s.src, n.children[i]), Some(s.file)) == Some(f),
    ensures
        s.with_array_parts(array, n, k).p.flow.contains(
            FlowV::ArrayFnMember { array, callee: f },
        ),
    decreases k,
{
    let x = FlowV::ArrayFnMember { array, callee: f };
    parts_add_moves(s, array, n, k - 1);
    let q = s.with_array_parts(array, n, k - 1);
    let c = n.children[k - 1];
    if i < k - 1 {
        parts_hold_the_functions_named(s, array, n, i, k - 1, f);
        let m = choose|m: int| 0 <= m < q.p.flow.len() && q.p.flow[m] == x;
        one_part_adds_moves(s, array, n, k);
        assert(s.with_array_parts(array, n, k).p.flow[m] == x);
    } else {
        assert(q.fn_argument(c) == Some(f));
        let r = s.with_array_parts(array, n, k);
        assert(r == q.with_array_member(array, c));
        assert(r.p.flow[r.p.flow.len() - 1] == x);
    }
}

/// Whether only moves are added.
spec fn adds_moves(a: LowerV, b: LowerV) -> bool {
    &&& b.p.symbols == a.p.symbols
    &&& b.src == a.src
    &&& b.file == a.file
    &&& a.p.flow.len() <= b.p.flow.len()
    &&& forall|m: int| 0 <= m < a.p.flow.len() ==> #[trigger] b.p.flow[m] == a.p.flow[m]
}

proof fn one_part_adds_moves(s: LowerV, array: VarId, n: NodeV, k: int)
    requires
        0 < k <= n.children.len(),
    ensures
        adds_moves(s.with_array_parts(array, n, k - 1), s.with_array_parts(array, n, k)),
    decreases n, 1int, k,
{
    let q = s.with_array_parts(array, n, k - 1);
    let c = n.children[k - 1];
    parts_add_moves(q, array, c, c.children.len() as int);
    assert(q.with_array_members(array, c) == q.with_array_parts(
        array,
        c,
        c.children.len() as int,
    ));
    if is_designated(c) {
        pair_value_smaller(c, c.children.len() as int);
        if let Some(value) = pair_value(c, c.children.len() as int) {
            assert(decreases_to!(n => value));
            parts_add_moves(q, array, value, value.children.len() as int);
            assert(q.with_array_members(array, value) == q.with_array_parts(
                array,
                value,
                value.children.len() as int,
            ));
        }
    }
}

proof fn parts_add_moves(s: LowerV, array: VarId, n: NodeV, k: int)
    ensures
        adds_moves(s, s.with_array_parts(array, n, k)),
    decreases n, 2int, k,
{
    if k <= 0 || k > n.children.len() {
    } else {
        parts_add_moves(s, array, n, k - 1);
        one_part_adds_moves(s, array, n, k);
        let a = s.with_array_parts(array, n, k - 1);
        let b = s.with_array_parts(array, n, k);
        assert forall|m: int| 0 <= m < s.p.flow.len() implies #[trigger] b.p.flow[m]
            == s.p.flow[m] by {
            assert(a.p.flow[m] == s.p.flow[m]);
        }
    }
}

} // verus!
