//! The value-flow graph: how values get from one place to another.

use crate::analysis::constraints::{
    constraints_view, AbstractLocation, ArgFlowEdge, ConstraintKind, ConstraintV, LocKind, LocV,
};
use crate::analysis::pag::{arg_at, pag_parts, Pag, PagNode, PagNodeKind, PagV};
use crate::analysis::solver::{AnalysisResult, ResultV};
use crate::collections::{
    fx_set, fx_set_contains, fx_set_insert, has_key, index_at, index_entries, index_get, index_len,
    sort_triples, triple_before, value_of,
};
use crate::export::rows::{storage_word, word_of_storage};
use crate::ir::ids::{CallSiteId, FnId, VarId};
use crate::ir::program::{Program, ProgramV};
use crate::ir::symbol::{CallSite, SiteV};
use crate::text::{cat2, cat3, comes_before, decimal, decimal_of, owned};
use rustc_hash::FxHashSet;
use vstd::prelude::*;

verus! {

/// A node.
#[derive(Debug)]
pub struct FlowNodeRow {
    pub id: u64,
    pub kind: String,
    pub label: String,
    pub detail: String,
    pub var: Option<u32>,
    pub fn_id: Option<u32>,
}

/// The mathematical form of a [`FlowNodeRow`].
pub struct FlowNodeV {
    pub id: u64,
    pub kind: Seq<char>,
    pub label: Seq<char>,
    pub detail: Seq<char>,
    pub var: Option<u32>,
    pub fn_id: Option<u32>,
}

impl View for FlowNodeRow {
    type V = FlowNodeV;

    open spec fn view(&self) -> FlowNodeV {
        FlowNodeV {
            id: self.id,
            kind: self.kind@,
            label: self.label@,
            detail: self.detail@,
            var: self.var,
            fn_id: self.fn_id,
        }
    }
}

pub open spec fn flow_nodes_view(s: Seq<FlowNodeRow>) -> Seq<FlowNodeV> {
    Seq::new(s.len(), |i: int| s[i]@)
}

/// How a value gets from one node to another.
#[derive(Debug, Clone, Copy, PartialEq, Eq, Structural)]
pub enum FlowEdgeKind {
    AddrOf,
    CallArg,
    Copy,
    Dlsym,
    Gep,
    Load,
    Storage,
    Store,
    Terminates,
}

/// An edge.
#[derive(Debug, Clone, Copy, PartialEq, Eq, Structural)]
pub struct FlowEdge {
    pub src: u32,
    pub dst: u32,
    pub kind: FlowEdgeKind,
}

/// A kind of edge in a word.
pub open spec fn edge_word(k: FlowEdgeKind) -> Seq<char> {
    match k {
        FlowEdgeKind::AddrOf => "addr_of"@,
        FlowEdgeKind::CallArg => "call_arg"@,
        FlowEdgeKind::Copy => "copy"@,
        FlowEdgeKind::Dlsym => "dlsym"@,
        FlowEdgeKind::Gep => "gep"@,
        FlowEdgeKind::Load => "load"@,
        FlowEdgeKind::Storage => "points_to"@,
        FlowEdgeKind::Store => "store"@,
        FlowEdgeKind::Terminates => "terminates"@,
    }
}

pub fn word_of_edge(k: FlowEdgeKind) -> (r: String)
    ensures
        r@ == edge_word(k),
{
    match k {
        FlowEdgeKind::AddrOf => owned("addr_of"),
        FlowEdgeKind::CallArg => owned("call_arg"),
        FlowEdgeKind::Copy => owned("copy"),
        FlowEdgeKind::Dlsym => owned("dlsym"),
        FlowEdgeKind::Gep => owned("gep"),
        FlowEdgeKind::Load => owned("load"),
        FlowEdgeKind::Storage => owned("points_to"),
        FlowEdgeKind::Store => owned("store"),
        FlowEdgeKind::Terminates => owned("terminates"),
    }
}

/// The place of a kind among the kinds, by their words.
pub open spec fn rank(k: FlowEdgeKind) -> u8 {
    match k {
        FlowEdgeKind::AddrOf => 0,
        FlowEdgeKind::CallArg => 1,
        FlowEdgeKind::Copy => 2,
        FlowEdgeKind::Dlsym => 3,
        FlowEdgeKind::Gep => 4,
        FlowEdgeKind::Load => 5,
        FlowEdgeKind::Storage => 6,
        FlowEdgeKind::Store => 7,
        FlowEdgeKind::Terminates => 8,
    }
}

fn rank_of(k: FlowEdgeKind) -> (r: u8)
    ensures
        r == rank(k),
{
    match k {
        FlowEdgeKind::AddrOf => 0,
        FlowEdgeKind::CallArg => 1,
        FlowEdgeKind::Copy => 2,
        FlowEdgeKind::Dlsym => 3,
        FlowEdgeKind::Gep => 4,
        FlowEdgeKind::Load => 5,
        FlowEdgeKind::Storage => 6,
        FlowEdgeKind::Store => 7,
        FlowEdgeKind::Terminates => 8,
    }
}

fn kind_at(n: u8) -> (r: FlowEdgeKind)
    ensures
        n <= 8 ==> rank(r) == n,
{
    match n {
        0 => FlowEdgeKind::AddrOf,
        1 => FlowEdgeKind::CallArg,
        2 => FlowEdgeKind::Copy,
        3 => FlowEdgeKind::Dlsym,
        4 => FlowEdgeKind::Gep,
        5 => FlowEdgeKind::Load,
        6 => FlowEdgeKind::Storage,
        7 => FlowEdgeKind::Store,
        _ => FlowEdgeKind::Terminates,
    }
}

/// Kinds rank by their words.
pub proof fn kinds_rank_by_word(a: FlowEdgeKind, b: FlowEdgeKind)
    ensures
        rank(a) < rank(b) <==> comes_before(edge_word(a), edge_word(b), 0),
{
    reveal_strlit("addr_of");
    reveal_strlit("call_arg");
    reveal_strlit("copy");
    reveal_strlit("dlsym");
    reveal_strlit("gep");
    reveal_strlit("load");
    reveal_strlit("points_to");
    reveal_strlit("store");
    reveal_strlit("terminates");
    reveal_with_fuel(comes_before, 12);
}

/// An edge as numbers.
pub open spec fn triple(e: FlowEdge) -> (u32, u32, u8) {
    (e.src, e.dst, rank(e.kind))
}

/// Whether an edge comes before another: by where it starts, where it ends,
/// and the word of its kind.
pub open spec fn edge_before(a: FlowEdge, b: FlowEdge) -> bool {
    triple_before(triple(a), triple(b))
}

/// An ascending list with each element once.
pub open spec fn deduped(s: Seq<(u32, u32, u8)>) -> Seq<(u32, u32, u8)>
    decreases s.len(),
{
    if s.len() == 0 {
        s
    } else {
        let before = deduped(s.drop_last());
        if before.len() > 0 && before.last() == s.last() {
            before
        } else {
            before.push(s.last())
        }
    }
}

proof fn deduped_ascends(s: Seq<(u32, u32, u8)>)
    requires
        forall|i: int, j: int|
            0 <= i <= j < s.len() ==> #[trigger] s[i] == #[trigger] s[j] || triple_before(
                s[i],
                s[j],
            ),
    ensures
        forall|i: int, j: int|
            0 <= i < j < deduped(s).len() ==> triple_before(
                #[trigger] deduped(s)[i],
                #[trigger] deduped(s)[j],
            ),
        s.len() > 0 ==> deduped(s).len() > 0 && deduped(s).last() == s.last(),
        forall|t: (u32, u32, u8)| #[trigger] deduped(s).contains(t) <==> s.contains(t),
    decreases s.len(),
{
    if s.len() > 0 {
        let rest = s.drop_last();
        assert forall|i: int, j: int| 0 <= i <= j < rest.len() implies #[trigger] rest[i]
            == #[trigger] rest[j] || triple_before(rest[i], rest[j]) by {
            assert(rest[i] == s[i] && rest[j] == s[j]);
        }
        deduped_ascends(rest);
        let before = deduped(rest);
        let after = deduped(s);
        let x = s.last();
        if rest.len() > 0 {
            assert(rest.last() == s[s.len() - 2]);
            assert(s[s.len() - 2] == s[s.len() - 1] || triple_before(
                s[s.len() - 2],
                s[s.len() - 1],
            ));
        }
        assert forall|i: int, j: int| 0 <= i < j < after.len() implies triple_before(
            #[trigger] after[i],
            #[trigger] after[j],
        ) by {
            assert(after[i] == before[i]);
            if j < before.len() {
                assert(after[j] == before[j]);
            } else if i < before.len() - 1 {
                assert(triple_before(before[i], before[before.len() - 1]));
            }
        }
        assert forall|t: (u32, u32, u8)| #[trigger] after.contains(t) <==> s.contains(t) by {
            assert(before.contains(t) <==> rest.contains(t));
            if after.contains(t) {
                let k = choose|k: int| 0 <= k < after.len() && after[k] == t;
                if k < before.len() {
                    assert(before[k] == t);
                    let m = choose|m: int| 0 <= m < rest.len() && rest[m] == t;
                    assert(s[m] == t);
                } else {
                    assert(s[s.len() - 1] == t);
                }
            }
            if s.contains(t) {
                let m = choose|m: int| 0 <= m < s.len() && s[m] == t;
                if m < rest.len() {
                    assert(rest[m] == t);
                    let k = choose|k: int| 0 <= k < before.len() && before[k] == t;
                    assert(after[k] == t);
                } else {
                    assert(after[after.len() - 1] == t);
                }
            }
        }
    }
}

/// Edges as numbers.
pub open spec fn triples(s: Seq<FlowEdge>) -> Seq<(u32, u32, u8)> {
    Seq::new(s.len(), |i: int| triple(s[i]))
}

proof fn triples_hold(s: Seq<FlowEdge>, e: FlowEdge)
    ensures
        triples(s).contains(triple(e)) <==> s.contains(e),
{
    if triples(s).contains(triple(e)) {
        let k = choose|k: int| 0 <= k < s.len() && triples(s)[k] == triple(e);
        assert(triple(s[k]) == triple(e));
        assert(s[k] == e);
    }
    if s.contains(e) {
        let k = choose|k: int| 0 <= k < s.len() && s[k] == e;
        assert(triples(s)[k] == triple(e));
    }
}

/// The edges in order, each once.
fn sort_edges(edges: &Vec<FlowEdge>) -> (r: Vec<FlowEdge>)
    ensures
        forall|i: int, j: int|
            0 <= i < j < r@.len() ==> edge_before(#[trigger] r@[i], #[trigger] r@[j]),
        forall|e: FlowEdge| #[trigger] r@.contains(e) <==> edges@.contains(e),
{
    let mut list: Vec<(u32, u32, u8)> = Vec::new();
    let mut i: usize = 0;
    while i < edges.len()
        invariant
            i <= edges@.len(),
            list@.len() == i,
            forall|j: int| 0 <= j < i ==> #[trigger] list@[j] == triple(edges@[j]),
        decreases edges@.len() - i,
    {
        list.push((edges[i].src, edges[i].dst, rank_of(edges[i].kind)));
        i = i + 1;
    }
    let ghost unsorted = list@;
    assert(unsorted =~= triples(edges@));
    sort_triples(&mut list);
    proof {
        unsorted.to_multiset_ensures();
        list@.to_multiset_ensures();
        assert forall|t: (u32, u32, u8)| #[trigger]
            list@.contains(t) <==> unsorted.contains(t) by {
            assert(list@.contains(t) <==> list@.to_multiset().count(t) > 0);
            assert(unsorted.contains(t) <==> unsorted.to_multiset().count(t) > 0);
        }
        assert forall|k: int| 0 <= k < list@.len() implies (#[trigger] list@[k]).2 <= 8 by {
            assert(list@.contains(list@[k]));
            let m = choose|m: int| 0 <= m < unsorted.len() && unsorted[m] == list@[k];
            assert(unsorted[m] == triple(edges@[m]));
        }
        deduped_ascends(list@);
    }
    let ghost sorted = list@;
    let mut out: Vec<FlowEdge> = Vec::new();
    let mut i: usize = 0;
    assert(triples(out@) =~= deduped(sorted.take(0)));
    while i < list.len()
        invariant
            sorted == list@,
            i <= sorted.len(),
            forall|k: int| 0 <= k < sorted.len() ==> (#[trigger] sorted[k]).2 <= 8,
            triples(out@) == deduped(sorted.take(i as int)),
        decreases sorted.len() - i,
    {
        let (src, dst, n) = list[i];
        let e = FlowEdge { src, dst, kind: kind_at(n) };
        assert(triple(e) == sorted[i as int]);
        let ghost before = out@;
        assert(sorted.take(i + 1).drop_last() =~= sorted.take(i as int));
        assert(out@.len() > 0 ==> triples(out@).last() == triple(out@.last()));
        let m = out.len();
        if m == 0 || out[m - 1].src != src || out[m - 1].dst != dst || rank_of(out[m - 1].kind)
            != n {
            out.push(e);
            assert(triples(out@) =~= triples(before).push(triple(e)));
        }
        i = i + 1;
    }
    proof {
        assert(sorted.take(i as int) =~= sorted);
        assert forall|k: int, m: int| 0 <= k < m < out@.len() implies edge_before(
            #[trigger] out@[k],
            #[trigger] out@[m],
        ) by {
            assert(triples(out@)[k] == triple(out@[k]));
            assert(triples(out@)[m] == triple(out@[m]));
        }
        assert forall|e: FlowEdge| #[trigger] out@.contains(e) <==> edges@.contains(e) by {
            triples_hold(out@, e);
            triples_hold(edges@, e);
            assert(deduped(sorted).contains(triple(e)) <==> sorted.contains(triple(e)));
            assert(sorted.contains(triple(e)) <==> unsorted.contains(triple(e)));
        }
    }
    out
}

/// What a kind of place is called in the flow graph.
pub open spec fn place_word(k: LocKind) -> Seq<char> {
    match k {
        LocKind::Global => "global"@,
        LocKind::FileStatic => "file_static"@,
        LocKind::FnStatic => "fn_static"@,
        LocKind::Local => "local"@,
        LocKind::Heap => "heap"@,
        LocKind::Field => "field"@,
        LocKind::FieldSummary => "field_summary"@,
        LocKind::ArraySummary => "array_summary"@,
        LocKind::Function => "function"@,
        LocKind::StringLit => "string_lit"@,
    }
}

fn word_of_place(k: LocKind) -> (r: String)
    ensures
        r@ == place_word(k),
{
    match k {
        LocKind::Global => owned("global"),
        LocKind::FileStatic => owned("file_static"),
        LocKind::FnStatic => owned("fn_static"),
        LocKind::Local => owned("local"),
        LocKind::Heap => owned("heap"),
        LocKind::Field => owned("field"),
        LocKind::FieldSummary => owned("field_summary"),
        LocKind::ArraySummary => owned("array_summary"),
        LocKind::Function => owned("function"),
        LocKind::StringLit => owned("string_lit"),
    }
}

/// ` in ` and the name of a function; nothing if it is not known.
pub open spec fn in_function(p: ProgramV, f: FnId) -> Seq<char> {
    match p.symbols.function(f) {
        Some(x) => " in "@ + x.name,
        None => Seq::empty(),
    }
}

fn text_in_function(p: &Program, f: FnId) -> (r: String)
    ensures
        r@ == in_function(p@, f),
{
    match p.symbols.function_by_id(f) {
        Some(x) => cat2(" in ", x.name.as_str()),
        None => {
            let r = String::new();
            assert(r@ =~= Seq::<char>::empty());
            r
        },
    }
}

/// What a place is called.
pub open spec fn place_label(p: ProgramV, l: LocV) -> Seq<char> {
    match l.kind {
        LocKind::Function => "fn:"@ + l.desc,
        LocKind::StringLit => "string:"@ + l.desc,
        _ => match l.var {
            Some(v) => match p.symbols.variable(v) {
                Some(x) => l.desc + " of "@ + x.name,
                None => l.desc,
            },
            None => l.desc,
        },
    }
}

fn label_of_place(p: &Program, l: &AbstractLocation) -> (r: String)
    ensures
        r@ == place_label(p@, l@),
{
    match l.kind {
        LocKind::Function => cat2("fn:", l.desc.as_str()),
        LocKind::StringLit => cat2("string:", l.desc.as_str()),
        _ => match l.var {
            Some(v) => match p.symbols.variable_by_id(v) {
                Some(x) => cat3(l.desc.as_str(), " of ", x.name.as_str()),
                None => l.desc.clone(),
            },
            None => l.desc.clone(),
        },
    }
}

/// The row of a node of the pointer assignment graph.
pub open spec fn flow_node(p: ProgramV, pag: PagV, node: PagNode) -> FlowNodeV {
    let id = node.id.0 as u64;
    match node.kind {
        PagNodeKind::Var(v) => match p.symbols.variable(v) {
            Some(x) => FlowNodeV {
                id,
                kind: "var"@,
                label: x.name,
                detail: storage_word(x.storage) + " @"@ + decimal_of(x.span.line as nat) + (
                match x.fn_id {
                    Some(f) => in_function(p, f),
                    None => Seq::empty(),
                }),
                var: Some(v.0),
                fn_id: match x.fn_id {
                    Some(f) => Some(f.0),
                    None => None,
                },
            },
            None => FlowNodeV {
                id,
                kind: "var"@,
                label: "var"@ + decimal_of(v.0 as nat),
                detail: Seq::empty(),
                var: Some(v.0),
                fn_id: None,
            },
        },
        PagNodeKind::Loc(l) => if l.0 < pag.locations.len() {
            let place = pag.locations[l.0 as int];
            FlowNodeV {
                id,
                kind: "loc"@,
                label: place_label(p, place),
                detail: place_word(place.kind),
                var: match place.var {
                    Some(v) => Some(v.0),
                    None => None,
                },
                fn_id: match place.fn_id {
                    Some(f) => Some(f.0),
                    None => None,
                },
            }
        } else {
            FlowNodeV {
                id,
                kind: "loc"@,
                label: Seq::empty(),
                detail: Seq::empty(),
                var: None,
                fn_id: None,
            }
        },
        PagNodeKind::CallTarget(c) => match p.symbols.call_site(c) {
            Some(s) => FlowNodeV {
                id,
                kind: "call_target"@,
                label: s.callee_name,
                detail: "call @"@ + decimal_of(s.span.line as nat),
                var: None,
                fn_id: None,
            },
            None => FlowNodeV {
                id,
                kind: "call_target"@,
                label: "cs"@ + decimal_of(c.0 as nat),
                detail: Seq::empty(),
                var: None,
                fn_id: None,
            },
        },
    }
}

fn nothing() -> (r: String)
    ensures
        r@ == Seq::<char>::empty(),
{
    let r = String::new();
    assert(r@ =~= Seq::<char>::empty());
    r
}

fn row_of_node(p: &Program, pag: &Pag, node: PagNode) -> (r: FlowNodeRow)
    ensures
        r@ == flow_node(p@, pag@, node),
{
    proof {
        pag_parts(pag);
    }
    let id = node.id.0 as u64;
    match node.kind {
        PagNodeKind::Var(v) => match p.symbols.variable_by_id(v) {
            Some(x) => {
                let place = match x.fn_id {
                    Some(f) => text_in_function(p, f),
                    None => nothing(),
                };
                let at = cat3(
                    word_of_storage(x.storage).as_str(),
                    " @",
                    decimal(x.span.line as u64).as_str(),
                );
                FlowNodeRow {
                    id,
                    kind: owned("var"),
                    label: x.name.clone(),
                    detail: cat2(at.as_str(), place.as_str()),
                    var: Some(v.0),
                    fn_id: match x.fn_id {
                        Some(f) => Some(f.0),
                        None => None,
                    },
                }
            },
            None => FlowNodeRow {
                id,
                kind: owned("var"),
                label: cat2("var", decimal(v.0 as u64).as_str()),
                detail: nothing(),
                var: Some(v.0),
                fn_id: None,
            },
        },
        PagNodeKind::Loc(l) => {
            let k = l.0 as usize;
            if k < pag.locations.len() {
                let place = &pag.locations[k];
                assert(pag@.locations[k as int] == place@);
                FlowNodeRow {
                    id,
                    kind: owned("loc"),
                    label: label_of_place(p, place),
                    detail: word_of_place(place.kind),
                    var: match place.var {
                        Some(v) => Some(v.0),
                        None => None,
                    },
                    fn_id: match place.fn_id {
                        Some(f) => Some(f.0),
                        None => None,
                    },
                }
            } else {
                FlowNodeRow {
                    id,
                    kind: owned("loc"),
                    label: nothing(),
                    detail: nothing(),
                    var: None,
                    fn_id: None,
                }
            }
        },
        PagNodeKind::CallTarget(c) => match p.symbols.call_site_by_id(c) {
            Some(s) => FlowNodeRow {
                id,
                kind: owned("call_target"),
                label: s.callee_name.clone(),
                detail: cat2("call @", decimal(s.span.line as u64).as_str()),
                var: None,
                fn_id: None,
            },
            None => FlowNodeRow {
                id,
                kind: owned("call_target"),
                label: cat2("cs", decimal(c.0 as u64).as_str()),
                detail: nothing(),
                var: None,
                fn_id: None,
            },
        },
    }
}

/// The kind of edge that a constraint is.
pub open spec fn constraint_edge_kind(k: ConstraintKind) -> FlowEdgeKind {
    match k {
        ConstraintKind::Copy => FlowEdgeKind::Copy,
        ConstraintKind::AddrOf => FlowEdgeKind::AddrOf,
        ConstraintKind::Load => FlowEdgeKind::Load,
        ConstraintKind::Store => FlowEdgeKind::Store,
        ConstraintKind::Gep => FlowEdgeKind::Gep,
        ConstraintKind::Dlsym => FlowEdgeKind::Dlsym,
    }
}

fn kind_of_constraint(k: ConstraintKind) -> (r: FlowEdgeKind)
    ensures
        r == constraint_edge_kind(k),
{
    match k {
        ConstraintKind::Copy => FlowEdgeKind::Copy,
        ConstraintKind::AddrOf => FlowEdgeKind::AddrOf,
        ConstraintKind::Load => FlowEdgeKind::Load,
        ConstraintKind::Store => FlowEdgeKind::Store,
        ConstraintKind::Gep => FlowEdgeKind::Gep,
        ConstraintKind::Dlsym => FlowEdgeKind::Dlsym,
    }
}

/// One edge per constraint.
pub open spec fn constraint_edges(constraints: Seq<ConstraintV>) -> Seq<FlowEdge> {
    Seq::new(
        constraints.len(),
        |i: int|
            FlowEdge {
                src: constraints[i].src.0,
                dst: constraints[i].dst.0,
                kind: constraint_edge_kind(constraints[i].kind),
            },
    )
}

/// The edges from the first `n` variables with a place of their own to that
/// place.
pub open spec fn storage_edges(pag: PagV, n: int) -> Seq<FlowEdge>
    decreases n,
{
    if n <= 0 {
        Seq::empty()
    } else {
        let before = storage_edges(pag, n - 1);
        let (var, place) = pag.var_location[n - 1];
        if has_key(pag.loc_node, place) && has_key(pag.var_node, var) {
            before.push(
                FlowEdge {
                    src: value_of(pag.var_node, var),
                    dst: value_of(pag.loc_node, place),
                    kind: FlowEdgeKind::Storage,
                },
            )
        } else {
            before
        }
    }
}

/// Whether one of the first `n` constraints brings what one node holds to
/// another.
pub open spec fn connected(constraints: Seq<ConstraintV>, pair: (u32, u32), n: int) -> bool {
    exists|i: int|
        0 <= i < n && (#[trigger] constraints[i]).src.0 == pair.0 && constraints[i].dst.0 == pair.1
            && (constraints[i].kind is Copy || constraints[i].kind is Load
            || constraints[i].kind is Gep)
}

/// The edge of an argument that reaches a parameter, unless a constraint
/// stands for it.
pub open spec fn argument_edge(pag: PagV, e: ArgFlowEdge) -> Option<FlowEdge> {
    if !has_key(pag.var_node, e.formal.0) {
        None
    } else {
        let dst = value_of(pag.var_node, e.formal.0);
        match (e.actual_var, e.actual_fn) {
            (Some(v), _) => if has_key(pag.var_node, v.0) && !connected(
                pag.constraints,
                (value_of(pag.var_node, v.0), dst),
                pag.constraints.len() as int,
            ) {
                Some(
                    FlowEdge {
                        src: value_of(pag.var_node, v.0),
                        dst,
                        kind: FlowEdgeKind::CallArg,
                    },
                )
            } else {
                None
            },
            (None, Some(f)) => if has_key(pag.fn_locations, f.0) && has_key(
                pag.loc_node,
                value_of(pag.fn_locations, f.0),
            ) {
                Some(
                    FlowEdge {
                        src: value_of(pag.loc_node, value_of(pag.fn_locations, f.0)),
                        dst,
                        kind: FlowEdgeKind::CallArg,
                    },
                )
            } else {
                None
            },
            (None, None) => None,
        }
    }
}

/// The edges of the first `n` arguments.
pub open spec fn argument_edges(pag: PagV, flows: Seq<ArgFlowEdge>, n: int) -> Seq<FlowEdge>
    decreases n,
{
    if n <= 0 {
        Seq::empty()
    } else {
        let before = argument_edges(pag, flows, n - 1);
        match argument_edge(pag, flows[n - 1]) {
            Some(e) => before.push(e),
            None => before,
        }
    }
}

/// The graph while the calls that end the life of a value are added.
#[verifier::ext_equal]
pub struct EndsV {
    pub nodes: Seq<FlowNodeV>,
    pub edges: Seq<FlowEdge>,
    pub seen: Set<(u32, u32)>,
}

/// The node of a call that ends the life of an argument.
pub open spec fn end_node(p: ProgramV, site: SiteV, param: u32, id: int) -> FlowNodeV {
    FlowNodeV {
        id: id as u64,
        kind: "terminator"@,
        label: site.callee_name + " clears arg"@ + decimal_of(param as nat),
        detail: "call @"@ + decimal_of(site.span.line as nat) + in_function(p, site.caller),
        var: None,
        fn_id: Some(site.caller.0),
    }
}

impl EndsV {
    /// With a call that ends the life of an argument: the first time it adds
    /// a node behind all others, and an edge to it from the argument.
    pub open spec fn with_end(self, p: ProgramV, pag: PagV, site: CallSiteId, param: u32) -> EndsV {
        if self.seen.contains((site.0, param)) {
            self
        } else {
            let s1 = EndsV { seen: self.seen.insert((site.0, param)), ..self };
            match p.symbols.call_site(site) {
                None => s1,
                Some(s) => match arg_at(s.var_args, param, 0) {
                    None => s1,
                    Some(v) => if has_key(pag.var_node, v.0) {
                        EndsV {
                            nodes: s1.nodes.push(end_node(p, s, param, s1.nodes.len() as int)),
                            edges: s1.edges.push(
                                FlowEdge {
                                    src: value_of(pag.var_node, v.0),
                                    dst: s1.nodes.len() as u64 as u32,
                                    kind: FlowEdgeKind::Terminates,
                                },
                            ),
                            ..s1
                        }
                    } else {
                        s1
                    },
                },
            }
        }
    }

    pub open spec fn with_ends(
        self,
        p: ProgramV,
        pag: PagV,
        events: Seq<(CallSiteId, u32)>,
        n: int,
    ) -> EndsV
        decreases n,
    {
        if n <= 0 {
            self
        } else {
            self.with_ends(p, pag, events, n - 1).with_end(
                p,
                pag,
                events[n - 1].0,
                events[n - 1].1,
            )
        }
    }
}

/// The nodes, and the edges before they are put in order.
pub open spec fn graph(p: ProgramV, pag: PagV, result: ResultV) -> EndsV {
    EndsV {
        nodes: Seq::new(pag.nodes.len(), |i: int| flow_node(p, pag, pag.nodes[i])),
        edges: constraint_edges(pag.constraints) + storage_edges(
            pag,
            pag.var_location.len() as int,
        ) + argument_edges(pag, result.arg_flow_edges, result.arg_flow_edges.len() as int),
        seen: Set::empty(),
    }.with_ends(p, pag, result.terminator_events, result.terminator_events.len() as int)
}

/// The value-flow graph.
#[derive(Debug)]
pub struct FlowGraph {
    pub nodes: Vec<FlowNodeRow>,
    pub edges: Vec<FlowEdge>,
}

fn add_constraint_edges(pag: &Pag, edges: &mut Vec<FlowEdge>)
    requires
        old(edges)@.len() == 0,
    ensures
        final(edges)@ == constraint_edges(pag@.constraints),
{
    proof {
        pag_parts(pag);
    }
    let mut i: usize = 0;
    while i < pag.constraints.len()
        invariant
            pag@.constraints == constraints_view(pag.constraints@),
            i <= pag.constraints@.len(),
            edges@.len() == i,
            forall|j: int|
                0 <= j < i ==> #[trigger] edges@[j] == constraint_edges(pag@.constraints)[j],
        decreases pag.constraints@.len() - i,
    {
        let c = &pag.constraints[i];
        assert(pag@.constraints[i as int] == c@);
        edges.push(FlowEdge { src: c.src.0, dst: c.dst.0, kind: kind_of_constraint(c.kind) });
        i = i + 1;
    }
    assert(edges@ =~= constraint_edges(pag@.constraints));
}

fn add_storage_edges(pag: &Pag, edges: &mut Vec<FlowEdge>)
    ensures
        final(edges)@ == old(edges)@ + storage_edges(pag@, pag@.var_location.len() as int),
{
    proof {
        pag_parts(pag);
    }
    let ghost start = edges@;
    let ghost g = pag@;
    let n = index_len(&pag.var_location);
    let mut i: usize = 0;
    assert(edges@ =~= start + storage_edges(g, 0));
    while i < n
        invariant
            g.var_location == index_entries(pag.var_location),
            g.loc_node == index_entries(pag.loc_node),
            g.var_node == index_entries(pag.var_node),
            n == g.var_location.len(),
            i <= n,
            edges@ == start + storage_edges(g, i as int),
        decreases n - i,
    {
        let (var, place) = index_at(&pag.var_location, i);
        let ghost before = edges@;
        if let Some(node) = index_get(&pag.loc_node, place) {
            if let Some(var_node) = index_get(&pag.var_node, var) {
                edges.push(FlowEdge { src: var_node, dst: node, kind: FlowEdgeKind::Storage });
            }
        }
        assert(edges@ =~= start + storage_edges(g, i + 1));
        i = i + 1;
    }
}

fn connected_pairs(pag: &Pag) -> (r: FxHashSet<(u32, u32)>)
    ensures
        forall|p: (u32, u32)| #[trigger]
            r@.contains(p) <==> connected(pag@.constraints, p, pag@.constraints.len() as int),
{
    proof {
        pag_parts(pag);
    }
    let ghost cs = pag@.constraints;
    let mut set: FxHashSet<(u32, u32)> = fx_set();
    let mut i: usize = 0;
    while i < pag.constraints.len()
        invariant
            cs == constraints_view(pag.constraints@),
            i <= pag.constraints@.len(),
            forall|p: (u32, u32)| #[trigger] set@.contains(p) <==> connected(cs, p, i as int),
        decreases pag.constraints@.len() - i,
    {
        let c = &pag.constraints[i];
        let ghost before = set@;
        assert(cs[i as int] == c@);
        if c.kind == ConstraintKind::Copy || c.kind == ConstraintKind::Load || c.kind
            == ConstraintKind::Gep {
            fx_set_insert(&mut set, (c.src.0, c.dst.0));
        }
        assert forall|p: (u32, u32)| #[trigger] set@.contains(p) <==> connected(cs, p, i + 1) by {
            if connected(cs, p, i as int) {
                assert(before.contains(p));
            }
            if set@.contains(p) && !before.contains(p) {
                assert(cs[i as int].src.0 == p.0);
            }
            if before.contains(p) {
                assert(connected(cs, p, i as int));
            }
        }
        i = i + 1;
    }
    set
}

fn edge_of_argument(pag: &Pag, wired: &FxHashSet<(u32, u32)>, e: ArgFlowEdge) -> (r: Option<
    FlowEdge,
>)
    requires
        forall|p: (u32, u32)| #[trigger]
            wired@.contains(p) <==> connected(pag@.constraints, p, pag@.constraints.len() as int),
    ensures
        r == argument_edge(pag@, e),
{
    proof {
        pag_parts(pag);
    }
    let dst = match index_get(&pag.var_node, e.formal.0) {
        Some(n) => n,
        None => return None,
    };
    match (e.actual_var, e.actual_fn) {
        (Some(v), _) => match index_get(&pag.var_node, v.0) {
            Some(src) => if fx_set_contains(wired, (src, dst)) {
                None
            } else {
                Some(FlowEdge { src, dst, kind: FlowEdgeKind::CallArg })
            },
            None => None,
        },
        (None, Some(f)) => match index_get(&pag.fn_locations, f.0) {
            Some(place) => match index_get(&pag.loc_node, place) {
                Some(src) => Some(FlowEdge { src, dst, kind: FlowEdgeKind::CallArg }),
                None => None,
            },
            None => None,
        },
        (None, None) => None,
    }
}

fn add_argument_edges(pag: &Pag, result: &AnalysisResult, edges: &mut Vec<FlowEdge>)
    ensures
        final(edges)@ == old(edges)@ + argument_edges(
            pag@,
            result@.arg_flow_edges,
            result@.arg_flow_edges.len() as int,
        ),
{
    let wired = connected_pairs(pag);
    let ghost start = edges@;
    let ghost flows = result@.arg_flow_edges;
    let mut i: usize = 0;
    assert(edges@ =~= start + argument_edges(pag@, flows, 0));
    while i < result.arg_flow_edges.len()
        invariant
            flows == result.arg_flow_edges@,
            i <= flows.len(),
            forall|p: (u32, u32)| #[trigger]
                wired@.contains(p) <==> connected(
                    pag@.constraints,
                    p,
                    pag@.constraints.len() as int,
                ),
            edges@ == start + argument_edges(pag@, flows, i as int),
        decreases flows.len() - i,
    {
        if let Some(e) = edge_of_argument(pag, &wired, result.arg_flow_edges[i]) {
            edges.push(e);
        }
        assert(edges@ =~= start + argument_edges(pag@, flows, i + 1));
        i = i + 1;
    }
}

fn arg_var(args: &Vec<(u32, VarId)>, param: u32) -> (r: Option<VarId>)
    ensures
        r == arg_at(args@, param, 0),
{
    let ghost goal = arg_at(args@, param, 0);
    let mut i: usize = 0;
    while i < args.len()
        invariant
            i <= args@.len(),
            goal == arg_at(args@, param, 0),
            arg_at(args@, param, i as int) == goal,
        decreases args@.len() - i,
    {
        if args[i].0 == param {
            return Some(args[i].1);
        }
        i = i + 1;
    }
    None
}

fn row_of_end(p: &Program, site: &CallSite, param: u32, id: usize) -> (r: FlowNodeRow)
    ensures
        r@ == end_node(p@, site@, param, id as int),
{
    let at = cat2("call @", decimal(site.span.line as u64).as_str());
    FlowNodeRow {
        id: id as u64,
        kind: owned("terminator"),
        label: cat3(site.callee_name.as_str(), " clears arg", decimal(param as u64).as_str()),
        detail: cat2(at.as_str(), text_in_function(p, site.caller).as_str()),
        var: None,
        fn_id: Some(site.caller.0),
    }
}

fn add_ends(
    p: &Program,
    pag: &Pag,
    result: &AnalysisResult,
    nodes: &mut Vec<FlowNodeRow>,
    edges: &mut Vec<FlowEdge>,
)
    ensures
        ({
            let end = EndsV {
                nodes: flow_nodes_view(old(nodes)@),
                edges: old(edges)@,
                seen: Set::empty(),
            }.with_ends(
                p@,
                pag@,
                result@.terminator_events,
                result@.terminator_events.len() as int,
            );
            flow_nodes_view(final(nodes)@) == end.nodes && final(edges)@ == end.edges
        }),
{
    proof {
        pag_parts(pag);
    }
    let ghost start = EndsV {
        nodes: flow_nodes_view(nodes@),
        edges: edges@,
        seen: Set::empty(),
    };
    let ghost events = result@.terminator_events;
    let mut seen: FxHashSet<(u32, u32)> = fx_set();
    let mut i: usize = 0;
    while i < result.terminator_events.len()
        invariant
            events == result.terminator_events@,
            i <= events.len(),
            pag@.var_node == index_entries(pag.var_node),
            (EndsV { nodes: flow_nodes_view(nodes@), edges: edges@, seen: seen@ })
                == start.with_ends(p@, pag@, events, i as int),
        decreases events.len() - i,
    {
        let (id, param) = result.terminator_events[i];
        let ghost before = nodes@;
        let ghost s0 = EndsV { nodes: flow_nodes_view(nodes@), edges: edges@, seen: seen@ };
        if fx_set_insert(&mut seen, (id.0, param)) {
            if let Some(site) = p.symbols.call_site_by_id(id) {
                if let Some(v) = arg_var(&site.var_args, param) {
                    if let Some(src) = index_get(&pag.var_node, v.0) {
                        let n = nodes.len();
                        nodes.push(row_of_end(p, site, param, n));
                        edges.push(
                            FlowEdge { src, dst: n as u64 as u32, kind: FlowEdgeKind::Terminates },
                        );
                        assert(flow_nodes_view(nodes@) =~= flow_nodes_view(before).push(
                            end_node(p@, site@, param, n as int),
                        ));
                    }
                }
            }
        } else {
            assert(s0.seen =~= seen@);
        }
        assert((EndsV { nodes: flow_nodes_view(nodes@), edges: edges@, seen: seen@ })
            =~= s0.with_end(p@, pag@, id, param));
        i = i + 1;
    }
}

/// The value-flow graph of a program.
///
/// Its edges are the constraints, what the analysis has added to them
/// included; an edge from each variable with a place of its own to that
/// place; an edge from each argument to the parameter that it reaches, unless
/// a constraint connects them; and an edge from each value to the call that
/// ends its life.
pub fn flow_graph(p: &Program, pag: &Pag, result: &AnalysisResult) -> (r: FlowGraph)
    ensures
        flow_nodes_view(r.nodes@) == graph(p@, pag@, result@).nodes,
        forall|i: int, j: int|
            0 <= i < j < r.edges@.len() ==> edge_before(
                #[trigger] r.edges@[i],
                #[trigger] r.edges@[j],
            ),
        forall|e: FlowEdge| #[trigger]
            r.edges@.contains(e) <==> graph(p@, pag@, result@).edges.contains(e),
{
    proof {
        pag_parts(pag);
    }
    let mut nodes: Vec<FlowNodeRow> = Vec::new();
    let mut i: usize = 0;
    while i < pag.nodes.len()
        invariant
            pag@.nodes == pag.nodes@,
            i <= pag.nodes@.len(),
            nodes@.len() == i,
            forall|j: int| 0 <= j < i ==> #[trigger] nodes@[j]@ == flow_node(p@, pag@, pag.nodes@[j]),
        decreases pag.nodes@.len() - i,
    {
        nodes.push(row_of_node(p, pag, pag.nodes[i]));
        i = i + 1;
    }
    assert(flow_nodes_view(nodes@) =~= Seq::new(
        pag@.nodes.len(),
        |i: int| flow_node(p@, pag@, pag@.nodes[i]),
    ));
    let mut edges: Vec<FlowEdge> = Vec::new();
    add_constraint_edges(pag, &mut edges);
    add_storage_edges(pag, &mut edges);
    add_argument_edges(pag, result, &mut edges);
    add_ends(p, pag, result, &mut nodes, &mut edges);
    FlowGraph { nodes, edges: sort_edges(&edges) }
}

} // verus!
