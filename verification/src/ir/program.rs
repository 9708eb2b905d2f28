//! A whole program: its types, its symbols, and how values move.

use crate::collections::{
    fx_get, fx_insert, fx_map, fx_name_get, fx_name_insert, fx_name_map, fx_names, fx_remove,
    index_members, index_set, index_set_at, index_set_insert, index_set_position,
};
use crate::ir::diagnostic::{push_report, reports_view, Diagnostic, ReportV};
use crate::ir::flow::{
    flows_view, push_return, returns_view, FlowConstraint, FlowV, ReturnFlow, ReturnV,
};
use crate::ir::ids::{CallSiteId, FileId, FnId, VarId};
use crate::ir::symbol::{add_fn_ids, no_symbols, with_fns, SymbolTable, SymbolsV};
use crate::ir::types::{DescV, TableV, TypeTable};
use crate::text::{cat3, chars_of, contains_name, names_view, owned, push_name, str_eq, string_of};
use indexmap::IndexSet;
use rustc_hash::FxHashMap;
use std::hash::RandomState;
use vstd::prelude::*;

verus! {

/// How a member function is spelled on the classes of a hierarchy.
///
/// Constructors and destructors change their spelling from class to class,
/// other methods keep it.
#[derive(Debug)]
pub enum MethodKind {
    Named(String),
    Ctor,
    Dtor,
}

/// The mathematical form of a [`MethodKind`].
pub enum MethodV {
    Named(Seq<char>),
    Ctor,
    Dtor,
}

impl View for MethodKind {
    type V = MethodV;

    open spec fn view(&self) -> MethodV {
        match *self {
            MethodKind::Named(m) => MethodV::Named(m@),
            MethodKind::Ctor => MethodV::Ctor,
            MethodKind::Dtor => MethodV::Dtor,
        }
    }
}

/// Where the part behind the last `::` before `i` begins; 0 if there is none.
pub open spec fn segment_start(name: Seq<char>, i: int) -> int
    decreases i,
{
    if i < 2 || i > name.len() {
        0
    } else if name[i - 2] == ':' && name[i - 1] == ':' {
        i
    } else {
        segment_start(name, i - 1)
    }
}

/// The part of a qualified name behind the last `::`.
pub open spec fn last_segment(name: Seq<char>) -> Seq<char> {
    name.skip(segment_start(name, name.len() as int))
}

/// The full name of a member of a class.
pub open spec fn member_name(kind: MethodV, cls: Seq<char>) -> Seq<char> {
    match kind {
        MethodV::Named(m) => cls + "::"@ + m,
        MethodV::Ctor => cls + "::"@ + last_segment(cls),
        MethodV::Dtor => cls + "::~"@ + last_segment(cls),
    }
}

pub proof fn segment_start_bounds(name: Seq<char>, i: int)
    ensures
        0 <= segment_start(name, i) <= name.len(),
    decreases i,
{
    if i < 2 || i > name.len() {
    } else if name[i - 2] == ':' && name[i - 1] == ':' {
    } else {
        segment_start_bounds(name, i - 1);
    }
}

/// The part of a qualified name behind the last `::`.
pub fn base_name(name: &str) -> (r: String)
    ensures
        r@ == last_segment(name@),
{
    let cs = chars_of(name);
    let mut i: usize = cs.len();
    while i >= 2 && !(cs[i - 2] == ':' && cs[i - 1] == ':')
        invariant
            cs@ == name@,
            i <= cs@.len(),
            segment_start(name@, i as int) == segment_start(name@, name@.len() as int),
        decreases i,
    {
        i = i - 1;
    }
    let from = if i >= 2 {
        i
    } else {
        0
    };
    let r = string_of(&cs, from, cs.len());
    assert(r@ =~= name@.skip(from as int));
    r
}

impl MethodKind {
    /// Whether this kind takes part in dynamic dispatch by default.
    pub fn is_destructor(&self) -> (r: bool)
        ensures
            r == (self@ is Dtor),
    {
        match self {
            MethodKind::Dtor => true,
            _ => false,
        }
    }

    /// The member's full name as it is spelled on a class.
    pub fn name_on(&self, cls: &str) -> (r: String)
        ensures
            r@ == member_name(self@, cls@),
    {
        match self {
            MethodKind::Named(m) => cat3(cls, "::", m.as_str()),
            MethodKind::Ctor => {
                let last = base_name(cls);
                cat3(cls, "::", last.as_str())
            },
            MethodKind::Dtor => {
                let last = base_name(cls);
                cat3(cls, "::~", last.as_str())
            },
        }
    }
}

/// What each function returns, in the order in which functions came up.
pub struct ReturnTable {
    fns: IndexSet<u32, RandomState>,
    /// One list per member of `fns`, in its order.
    lists: Vec<Vec<ReturnFlow>>,
}

/// What each function returns.
pub open spec fn returned(table: Seq<(u32, Seq<ReturnV>)>, f: u32, i: int) -> Option<Seq<ReturnV>>
    decreases table.len() - i,
{
    if i < 0 || i >= table.len() {
        None
    } else if table[i].0 == f {
        Some(table[i].1)
    } else {
        returned(table, f, i + 1)
    }
}

/// The table once a function has been given one more thing to return.
pub open spec fn with_return(table: Seq<(u32, Seq<ReturnV>)>, f: u32, flow: ReturnV, i: int) -> Seq<
    (u32, Seq<ReturnV>),
>
    decreases table.len() - i,
{
    if i < 0 || i >= table.len() {
        table.push((f, seq![flow]))
    } else if table[i].0 == f {
        table.update(i, (f, table[i].1.push(flow)))
    } else {
        with_return(table, f, flow, i + 1)
    }
}

/// The table in which a function has an entry, if only an empty one.
pub open spec fn with_entry_for(table: Seq<(u32, Seq<ReturnV>)>, f: u32) -> Seq<
    (u32, Seq<ReturnV>),
> {
    if returned(table, f, 0) is Some {
        table
    } else {
        table.push((f, Seq::empty()))
    }
}

impl View for ReturnTable {
    type V = Seq<(u32, Seq<ReturnV>)>;

    closed spec fn view(&self) -> Seq<(u32, Seq<ReturnV>)> {
        Seq::new(
            self.lists@.len(),
            |i: int| (index_members(self.fns)[i], returns_view(self.lists@[i]@)),
        )
    }
}

/// The first entry of a function is the one that counts.
proof fn first_entry(table: Seq<(u32, Seq<ReturnV>)>, f: u32, flow: ReturnV, k: int, i: int)
    requires
        0 <= i <= k < table.len(),
        table[k].0 == f,
        forall|j: int| 0 <= j < k ==> (#[trigger] table[j]).0 != f,
    ensures
        returned(table, f, i) == Some(table[k].1),
        with_return(table, f, flow, i) == table.update(k, (f, table[k].1.push(flow))),
    decreases k - i,
{
    if i < k {
        assert(table[i].0 != f);
        first_entry(table, f, flow, k, i + 1);
    }
}

/// A function without an entry gets one at the end.
proof fn no_entry(table: Seq<(u32, Seq<ReturnV>)>, f: u32, flow: ReturnV, i: int)
    requires
        0 <= i <= table.len(),
        forall|j: int| 0 <= j < table.len() ==> (#[trigger] table[j]).0 != f,
    ensures
        returned(table, f, i) is None,
        with_return(table, f, flow, i) == table.push((f, seq![flow])),
    decreases table.len() - i,
{
    if i < table.len() {
        assert(table[i].0 != f);
        no_entry(table, f, flow, i + 1);
    }
}

impl ReturnTable {
    /// Every function has one list.
    pub closed spec fn wf(&self) -> bool {
        index_members(self.fns).len() == self.lists@.len()
    }

    pub fn new() -> (r: ReturnTable)
        ensures
            r.wf(),
            r@ == Seq::<(u32, Seq<ReturnV>)>::empty(),
    {
        let r = ReturnTable { fns: index_set(), lists: Vec::new() };
        assert(r@ =~= Seq::empty());
        r
    }

    /// What a function returns, if anything is known of that.
    pub fn get(&self, f: FnId) -> (r: Option<&Vec<ReturnFlow>>)
        requires
            self.wf(),
        ensures
            match r {
                Some(v) => returned(self@, f.0, 0) == Some(returns_view(v@)),
                None => returned(self@, f.0, 0) is None,
            },
    {
        let ghost any = ReturnV::Copy { src: VarId(0) };
        match index_set_position(&self.fns, f.0) {
            Some(k) => {
                proof {
                    first_entry(self@, f.0, any, k as int, 0);
                }
                Some(&self.lists[k])
            },
            None => {
                proof {
                    no_entry(self@, f.0, any, 0);
                }
                None
            },
        }
    }

    /// How many functions have an entry.
    pub fn len(&self) -> (r: usize)
        requires
            self.wf(),
        ensures
            r == self@.len(),
    {
        self.lists.len()
    }

    /// The entry at a position.
    pub fn at(&self, i: usize) -> (r: (FnId, &Vec<ReturnFlow>))
        requires
            self.wf(),
            i < self@.len(),
        ensures
            (r.0.0, returns_view(r.1@)) == self@[i as int],
    {
        (FnId(index_set_at(&self.fns, i)), &self.lists[i])
    }

    /// Gives a function an entry, if it has none.
    pub fn ensure(&mut self, f: FnId)
        requires
            old(self).wf(),
        ensures
            final(self).wf(),
            final(self)@ == with_entry_for(old(self)@, f.0),
    {
        let ghost any = ReturnV::Copy { src: VarId(0) };
        match index_set_position(&self.fns, f.0) {
            Some(k) => {
                proof {
                    first_entry(self@, f.0, any, k as int, 0);
                }
            },
            None => {
                proof {
                    no_entry(self@, f.0, any, 0);
                }
                let list: Vec<ReturnFlow> = Vec::new();
                assert(returns_view(list@) =~= Seq::empty());
                index_set_insert(&mut self.fns, f.0);
                self.lists.push(list);
                assert(self@ =~= old(self)@.push((f.0, Seq::empty())));
            },
        }
    }

    /// Gives a function one more thing to return.
    pub fn add(&mut self, f: FnId, flow: ReturnFlow)
        requires
            old(self).wf(),
        ensures
            final(self).wf(),
            final(self)@ == with_return(old(self)@, f.0, flow@, 0),
    {
        let ghost v = flow@;
        match index_set_position(&self.fns, f.0) {
            Some(k) => {
                proof {
                    first_entry(self@, f.0, v, k as int, 0);
                }
                let ghost before = self.lists@[k as int]@;
                self.lists[k].push(flow);
                assert(returns_view(self.lists@[k as int]@) =~= returns_view(before).push(v));
                assert(self@ =~= old(self)@.update(
                    k as int,
                    (f.0, old(self)@[k as int].1.push(v)),
                ));
            },
            None => {
                proof {
                    no_entry(self@, f.0, v, 0);
                }
                let mut list: Vec<ReturnFlow> = Vec::new();
                push_return(&mut list, flow);
                assert(returns_view(list@) =~= seq![v]);
                index_set_insert(&mut self.fns, f.0);
                self.lists.push(list);
                assert(self@ =~= old(self)@.push((f.0, seq![v])));
            },
        }
    }
}

/// Which entities have been merged already, by where they come from.
pub struct MergeDedup {
    /// By file and line, then by name.
    fn_keys: FxHashMap<(u32, u32), FxHashMap<String, u32>>,
    /// By file, line and column, then by the name of what is called.
    site_keys: FxHashMap<(u32, u32, u32), FxHashMap<String, u32>>,
}

/// The mathematical form of a [`MergeDedup`].
#[verifier::ext_equal]
pub struct DedupV {
    pub fns: Map<(u32, u32, Seq<char>), u32>,
    pub sites: Map<(u32, u32, u32, Seq<char>), u32>,
}

impl View for MergeDedup {
    type V = DedupV;

    closed spec fn view(&self) -> DedupV {
        DedupV {
            fns: Map::new(
                |k: (u32, u32, Seq<char>)|
                    self.fn_keys@.contains_key((k.0, k.1)) && fx_names(
                        self.fn_keys@[(k.0, k.1)],
                    ).contains_key(k.2),
                |k: (u32, u32, Seq<char>)| fx_names(self.fn_keys@[(k.0, k.1)])[k.2],
            ),
            sites: Map::new(
                |k: (u32, u32, u32, Seq<char>)|
                    self.site_keys@.contains_key((k.0, k.1, k.2)) && fx_names(
                        self.site_keys@[(k.0, k.1, k.2)],
                    ).contains_key(k.3),
                |k: (u32, u32, u32, Seq<char>)| fx_names(self.site_keys@[(k.0, k.1, k.2)])[k.3],
            ),
        }
    }
}

impl MergeDedup {
    pub fn new() -> (r: MergeDedup)
        ensures
            r@ == (DedupV { fns: Map::empty(), sites: Map::empty() }),
    {
        let r = MergeDedup { fn_keys: fx_map(), site_keys: fx_map() };
        assert(r@.fns =~= Map::empty());
        assert(r@.sites =~= Map::empty());
        r
    }

    /// The function that was merged from a place under a name.
    pub fn function_at(&self, file: FileId, line: u32, name: &str) -> (r: Option<FnId>)
        ensures
            match r {
                Some(f) => self@.fns.contains_key((file.0, line, name@)) && f.0
                    == self@.fns[(file.0, line, name@)],
                None => !self@.fns.contains_key((file.0, line, name@)),
            },
    {
        match fx_get(&self.fn_keys, (file.0, line)) {
            Some(names) => match fx_name_get(names, name) {
                Some(f) => Some(FnId(f)),
                None => None,
            },
            None => None,
        }
    }

    /// Notes that a function was merged from a place under a name.
    pub fn add_function(&mut self, file: FileId, line: u32, name: &str, f: FnId)
        ensures
            final(self)@ == (DedupV {
                fns: old(self)@.fns.insert((file.0, line, name@), f.0),
                ..old(self)@
            }),
    {
        let mut names = match fx_remove(&mut self.fn_keys, (file.0, line)) {
            Some(m) => m,
            None => fx_name_map(),
        };
        fx_name_insert(&mut names, owned(name), f.0);
        fx_insert(&mut self.fn_keys, (file.0, line), names);
        assert(self@.fns =~= old(self)@.fns.insert((file.0, line, name@), f.0));
        assert(self@.sites =~= old(self)@.sites);
    }

    /// The call site that was merged from a place.
    pub fn site_at(&self, file: FileId, line: u32, col: u32, name: &str) -> (r: Option<CallSiteId>)
        ensures
            match r {
                Some(c) => self@.sites.contains_key((file.0, line, col, name@)) && c.0
                    == self@.sites[(file.0, line, col, name@)],
                None => !self@.sites.contains_key((file.0, line, col, name@)),
            },
    {
        match fx_get(&self.site_keys, (file.0, line, col)) {
            Some(names) => match fx_name_get(names, name) {
                Some(c) => Some(CallSiteId(c)),
                None => None,
            },
            None => None,
        }
    }

    /// Notes that a call site was merged from a place.
    pub fn add_site(&mut self, file: FileId, line: u32, col: u32, name: &str, c: CallSiteId)
        ensures
            final(self)@ == (DedupV {
                sites: old(self)@.sites.insert((file.0, line, col, name@), c.0),
                ..old(self)@
            }),
    {
        let mut names = match fx_remove(&mut self.site_keys, (file.0, line, col)) {
            Some(m) => m,
            None => fx_name_map(),
        };
        fx_name_insert(&mut names, owned(name), c.0);
        fx_insert(&mut self.site_keys, (file.0, line, col), names);
        assert(self@.sites =~= old(self)@.sites.insert((file.0, line, col, name@), c.0));
        assert(self@.fns =~= old(self)@.fns);
    }
}

/// Pairs of texts.
pub open spec fn pairs_view(s: Seq<(String, String)>) -> Seq<(Seq<char>, Seq<char>)> {
    Seq::new(s.len(), |i: int| (s[i].0@, s[i].1@))
}

/// Appends a pair.
pub fn push_pair(pairs: &mut Vec<(String, String)>, a: String, b: String)
    ensures
        pairs_view(final(pairs)@) == pairs_view(old(pairs)@).push((a@, b@)),
{
    let ghost before = pairs@;
    let ghost x = a@;
    let ghost y = b@;
    pairs.push((a, b));
    assert(pairs_view(pairs@) =~= pairs_view(before).push((x, y)));
}

/// A program.
pub struct Program {
    pub root: String,
    pub types: TypeTable,
    pub symbols: SymbolTable,
    pub flow: Vec<FlowConstraint>,
    /// What each function returns.
    pub fn_returns: ReturnTable,
    pub diagnostics: Vec<Diagnostic>,
    pub include_paths: Vec<String>,
    /// Which file of the project draws in which other.
    pub include_deps: Vec<(String, String)>,
    pub defines: Vec<(String, String)>,
    pub anon_type_counter: u32,
    pub dedup: MergeDedup,
    /// Which class derives from which: qualified names, derived class first.
    pub inheritance: Vec<(String, String)>,
}

/// The mathematical form of a [`Program`].
#[verifier::ext_equal]
pub struct ProgramV {
    pub root: Seq<char>,
    pub types: TableV,
    pub symbols: SymbolsV,
    pub flow: Seq<FlowV>,
    pub fn_returns: Seq<(u32, Seq<ReturnV>)>,
    pub diagnostics: Seq<ReportV>,
    pub include_paths: Seq<Seq<char>>,
    pub include_deps: Seq<(Seq<char>, Seq<char>)>,
    pub defines: Seq<(Seq<char>, Seq<char>)>,
    pub anon_type_counter: u32,
    pub dedup: DedupV,
    pub inheritance: Seq<(Seq<char>, Seq<char>)>,
}

impl View for Program {
    type V = ProgramV;

    open spec fn view(&self) -> ProgramV {
        ProgramV {
            root: self.root@,
            types: self.types@,
            symbols: self.symbols@,
            flow: flows_view(self.flow@),
            fn_returns: self.fn_returns@,
            diagnostics: reports_view(self.diagnostics@),
            include_paths: names_view(self.include_paths@),
            include_deps: pairs_view(self.include_deps@),
            defines: pairs_view(self.defines@),
            anon_type_counter: self.anon_type_counter,
            dedup: self.dedup@,
            inheritance: pairs_view(self.inheritance@),
        }
    }
}

/// The inheritance once an edge has been added: an edge is there once, and
/// both of its ends have names.
pub open spec fn with_edge(
    edges: Seq<(Seq<char>, Seq<char>)>,
    derived: Seq<char>,
    base: Seq<char>,
) -> Seq<(Seq<char>, Seq<char>)> {
    if derived.len() == 0 || base.len() == 0 || edges.contains((derived, base)) {
        edges
    } else {
        edges.push((derived, base))
    }
}

/// The classes that a class derives from directly, among the first `n` edges.
pub open spec fn direct_bases(edges: Seq<(Seq<char>, Seq<char>)>, cls: Seq<char>, n: int) -> Seq<
    Seq<char>,
>
    decreases n,
{
    if n <= 0 {
        Seq::empty()
    } else if edges[n - 1].0 == cls {
        direct_bases(edges, cls, n - 1).push(edges[n - 1].1)
    } else {
        direct_bases(edges, cls, n - 1)
    }
}

/// `out` with the classes that derive from `cls` by the edges from `j` on.
pub open spec fn with_derived(
    edges: Seq<(Seq<char>, Seq<char>)>,
    out: Seq<Seq<char>>,
    cls: Seq<char>,
    j: int,
) -> Seq<Seq<char>>
    decreases edges.len() - j,
{
    if j < 0 || j >= edges.len() {
        out
    } else if edges[j].1 == cls && !out.contains(edges[j].0) {
        with_derived(edges, out.push(edges[j].0), cls, j + 1)
    } else {
        with_derived(edges, out, cls, j + 1)
    }
}

/// `out` with all that derives, directly or not, from its classes from `i`
/// on, level by level.
pub open spec fn closure_from(
    edges: Seq<(Seq<char>, Seq<char>)>,
    out: Seq<Seq<char>>,
    i: int,
) -> Seq<Seq<char>>
    decreases edges.len() + 1 - i,
{
    if i < 0 || i >= out.len() || i > edges.len() {
        out
    } else {
        closure_from(edges, with_derived(edges, out, out[i], 0), i + 1)
    }
}

/// Every class of `out` but the first is derived by some edge, and none is
/// there twice.
pub open spec fn found(edges: Seq<(Seq<char>, Seq<char>)>, out: Seq<Seq<char>>) -> bool {
    &&& out.no_duplicates()
    &&& out.len() > 0
    &&& forall|k: int|
        1 <= k < out.len() ==> exists|j: int|
            0 <= j < edges.len() && (#[trigger] edges[j]).0 == #[trigger] out[k]
}

/// There are no more classes than edges, and one.
proof fn found_bound(edges: Seq<(Seq<char>, Seq<char>)>, out: Seq<Seq<char>>)
    requires
        found(edges, out),
    ensures
        out.len() <= edges.len() + 1,
{
    let derived = edges.map_values(|e: (Seq<char>, Seq<char>)| e.0);
    let all = derived.push(out[0]);
    out.unique_seq_to_set();
    all.lemma_cardinality_of_set();
    assert(out.to_set().subset_of(all.to_set())) by {
        assert forall|c: Seq<char>| out.to_set().contains(c) implies all.to_set().contains(c) by {
            let k = choose|k: int| 0 <= k < out.len() && out[k] == c;
            if k == 0 {
                assert(all[edges.len() as int] == c);
            } else {
                let j = choose|j: int| 0 <= j < edges.len() && (#[trigger] edges[j]).0 == out[k];
                assert(derived[j] == c);
                assert(all[j] == c);
            }
        }
    }
    vstd::set_lib::lemma_len_subset(out.to_set(), all.to_set());
}

impl ProgramV {
    /// A class and everything that derives from it.
    pub open spec fn subclasses(self, root: Seq<char>) -> Seq<Seq<char>> {
        closure_from(self.inheritance, seq![root], 0)
    }

    /// The functions that a member may be, over the first `n` of `classes`.
    pub open spec fn targets(self, classes: Seq<Seq<char>>, kind: MethodV, n: int) -> Seq<FnId>
        decreases n,
    {
        if n <= 0 {
            Seq::empty()
        } else {
            with_fns(
                self.targets(classes, kind, n - 1),
                self.symbols.external(member_name(kind, classes[n - 1])),
            )
        }
    }

    /// The functions that a call of a member on a class may reach.
    pub open spec fn method_targets(self, cls: Seq<char>, kind: MethodV) -> Seq<FnId> {
        self.targets(self.subclasses(cls), kind, self.subclasses(cls).len() as int)
    }
}

/// A program without anything in it.
pub open spec fn empty_program(root: Seq<char>) -> ProgramV {
    ProgramV {
        root,
        types: (TableV { types: Seq::empty(), aliases: Seq::empty() }).interned(
            DescV::Void,
        ).interned(DescV::Int),
        symbols: no_symbols(),
        flow: Seq::empty(),
        fn_returns: Seq::empty(),
        diagnostics: Seq::empty(),
        include_paths: Seq::empty(),
        include_deps: Seq::empty(),
        defines: Seq::empty(),
        anon_type_counter: 0,
        dedup: DedupV { fns: Map::empty(), sites: Map::empty() },
        inheritance: Seq::empty(),
    }
}

impl Program {
    pub open spec fn wf(&self) -> bool {
        self.fn_returns.wf()
    }

    /// A program without anything in it.
    pub fn new(root: String) -> (r: Program)
        ensures
            r.wf(),
            r@ == empty_program(root@),
    {
        let r = Program {
            root,
            types: TypeTable::new(),
            symbols: SymbolTable::new(),
            flow: Vec::new(),
            fn_returns: ReturnTable::new(),
            diagnostics: Vec::new(),
            include_paths: Vec::new(),
            include_deps: Vec::new(),
            defines: Vec::new(),
            anon_type_counter: 0,
            dedup: MergeDedup::new(),
            inheritance: Vec::new(),
        };
        assert(r@.flow =~= Seq::empty());
        assert(r@.diagnostics =~= Seq::empty());
        assert(r@.include_paths =~= Seq::empty());
        assert(r@.include_deps =~= Seq::empty());
        assert(r@.defines =~= Seq::empty());
        assert(r@.inheritance =~= Seq::empty());
        r
    }

    /// Notes that a class derives from another, once.
    pub fn add_inheritance(&mut self, derived: &str, base: &str)
        ensures
            final(self)@ == (ProgramV {
                inheritance: with_edge(old(self)@.inheritance, derived@, base@),
                ..old(self)@
            }),
            old(self).wf() ==> final(self).wf(),
    {
        add_edge(&mut self.inheritance, derived, base);
    }

    /// The classes that a class derives from directly.
    pub fn bases_of(&self, cls: &str) -> (r: Vec<String>)
        ensures
            names_view(r@) == direct_bases(
                self@.inheritance,
                cls@,
                self@.inheritance.len() as int,
            ),
    {
        let mut out: Vec<String> = Vec::new();
        let mut i: usize = 0;
        assert(names_view(out@) =~= Seq::empty());
        while i < self.inheritance.len()
            invariant
                i <= self.inheritance@.len(),
                names_view(out@) == direct_bases(self@.inheritance, cls@, i as int),
            decreases self.inheritance@.len() - i,
        {
            assert(self@.inheritance[i as int] == (
                self.inheritance@[i as int].0@,
                self.inheritance@[i as int].1@,
            ));
            if str_eq(self.inheritance[i].0.as_str(), cls) {
                push_name(&mut out, self.inheritance[i].1.clone());
            }
            i = i + 1;
        }
        out
    }

    /// A class and everything that derives from it, directly or not, level
    /// by level.
    pub fn subclass_closure(&self, root: &str) -> (r: Vec<String>)
        ensures
            names_view(r@) == self@.subclasses(root@),
    {
        let ghost edges = self@.inheritance;
        let mut out: Vec<String> = Vec::new();
        push_name(&mut out, owned(root));
        assert(names_view(out@) =~= seq![root@]);
        let mut i: usize = 0;
        while i < out.len()
            invariant
                edges == self@.inheritance,
                i <= out@.len(),
                found(edges, names_view(out@)),
                closure_from(edges, names_view(out@), i as int) == self@.subclasses(root@),
            decreases edges.len() + 1 - i,
        {
            let ghost before = names_view(out@);
            proof {
                found_bound(edges, before);
            }
            let cur = out[i].clone();
            let mut j: usize = 0;
            while j < self.inheritance.len()
                invariant
                    edges == self@.inheritance,
                    i < names_view(out@).len(),
                    j <= self.inheritance@.len(),
                    found(edges, names_view(out@)),
                    with_derived(edges, names_view(out@), cur@, j as int) == with_derived(
                        edges,
                        before,
                        cur@,
                        0,
                    ),
                decreases self.inheritance@.len() - j,
            {
                assert(edges[j as int] == (
                    self.inheritance@[j as int].0@,
                    self.inheritance@[j as int].1@,
                ));
                if str_eq(self.inheritance[j].1.as_str(), cur.as_str()) && !contains_name(
                    &out,
                    self.inheritance[j].0.as_str(),
                ) {
                    push_name(&mut out, self.inheritance[j].0.clone());
                }
                j = j + 1;
            }
            i = i + 1;
        }
        proof {
            found_bound(edges, names_view(out@));
        }
        out
    }

    /// Every function that a call of a member on a class may reach: those of
    /// the class first, then those of the classes that derive from it.
    pub fn method_targets(&self, cls: &str, kind: &MethodKind) -> (r: Vec<FnId>)
        ensures
            r@ == self@.method_targets(cls@, kind@),
    {
        let classes = self.subclass_closure(cls);
        let ghost names = names_view(classes@);
        let mut out: Vec<FnId> = Vec::new();
        let mut i: usize = 0;
        assert(out@ =~= Seq::empty());
        while i < classes.len()
            invariant
                names == names_view(classes@),
                i <= classes@.len(),
                out@ == self@.targets(names, kind@, i as int),
            decreases classes@.len() - i,
        {
            let full = kind.name_on(classes[i].as_str());
            let ids = self.symbols.functions_named(full.as_str());
            add_fn_ids(&mut out, &ids);
            i = i + 1;
        }
        out
    }

    pub fn add_diagnostic(&mut self, diag: Diagnostic)
        ensures
            final(self)@ == (ProgramV {
                diagnostics: old(self)@.diagnostics.push(diag@),
                ..old(self)@
            }),
            old(self).wf() ==> final(self).wf(),
    {
        push_report(&mut self.diagnostics, diag);
    }
}

/// Adds an edge to a hierarchy, once.
pub fn add_edge(edges: &mut Vec<(String, String)>, derived: &str, base: &str)
    ensures
        pairs_view(final(edges)@) == with_edge(pairs_view(old(edges)@), derived@, base@),
{
    let d = chars_of(derived);
    let b = chars_of(base);
    if d.len() == 0 || b.len() == 0 {
        return ;
    }
    let mut i: usize = 0;
    while i < edges.len()
        invariant
            i <= edges@.len(),
            edges@ == old(edges)@,
            derived@.len() > 0,
            base@.len() > 0,
            forall|j: int| 0 <= j < i ==> pairs_view(edges@)[j] != (derived@, base@),
        decreases edges@.len() - i,
    {
        if str_eq(edges[i].0.as_str(), derived) && str_eq(edges[i].1.as_str(), base) {
            assert(pairs_view(edges@)[i as int] == (derived@, base@));
            return ;
        }
        i = i + 1;
    }
    push_pair(edges, owned(derived), owned(base));
}

/// Every class of `out` but the first derives directly from an earlier one.
pub open spec fn grounded(edges: Seq<(Seq<char>, Seq<char>)>, out: Seq<Seq<char>>) -> bool {
    forall|k: int| 1 <= k < out.len() ==> #[trigger] derives_from_earlier(edges, out, k)
}

/// The class at `k` derives directly from an earlier one.
pub open spec fn derives_from_earlier(
    edges: Seq<(Seq<char>, Seq<char>)>,
    out: Seq<Seq<char>>,
    k: int,
) -> bool {
    exists|m: int| 0 <= m < k && edges.contains((out[k], #[trigger] out[m]))
}

/// What derives directly from the first `i` classes of `out` is in `out`.
pub open spec fn closed_below(
    edges: Seq<(Seq<char>, Seq<char>)>,
    out: Seq<Seq<char>>,
    i: int,
) -> bool {
    forall|j: int, m: int|
        0 <= j < edges.len() && 0 <= m < i && m < out.len() && (#[trigger] edges[j]).1
            == #[trigger] out[m] ==> out.contains(edges[j].0)
}

proof fn push_grounded(edges: Seq<(Seq<char>, Seq<char>)>, out: Seq<Seq<char>>, i: int, j: int)
    requires
        grounded(edges, out),
        0 <= i < out.len(),
        0 <= j < edges.len(),
        edges[j].1 == out[i],
    ensures
        grounded(edges, out.push(edges[j].0)),
{
    let next = out.push(edges[j].0);
    assert forall|k: int| 1 <= k < next.len() implies #[trigger] derives_from_earlier(
        edges,
        next,
        k,
    ) by {
        if k < out.len() {
            assert(derives_from_earlier(edges, out, k));
            let m = choose|m: int| 0 <= m < k && edges.contains((out[k], #[trigger] out[m]));
            assert(edges.contains((next[k], next[m])));
        } else {
            assert(edges[j] == (next[k], next[i]));
            assert(edges.contains((next[k], next[i])));
        }
    }
}

proof fn push_found(edges: Seq<(Seq<char>, Seq<char>)>, out: Seq<Seq<char>>, j: int)
    requires
        found(edges, out),
        0 <= j < edges.len(),
        !out.contains(edges[j].0),
    ensures
        found(edges, out.push(edges[j].0)),
{
    let next = out.push(edges[j].0);
    assert forall|k: int| 1 <= k < next.len() implies exists|h: int|
        0 <= h < edges.len() && (#[trigger] edges[h]).0 == #[trigger] next[k] by {
        if k < out.len() {
            let h = choose|h: int|
                0 <= h < edges.len() && (#[trigger] edges[h]).0 == #[trigger] out[k];
            assert(edges[h].0 == next[k]);
        } else {
            assert(edges[j].0 == next[k]);
        }
    }
}

/// `out` stays part of what it grows to.
proof fn with_derived_grows(
    edges: Seq<(Seq<char>, Seq<char>)>,
    out: Seq<Seq<char>>,
    cls: Seq<char>,
    j: int,
)
    ensures
        out.len() <= with_derived(edges, out, cls, j).len(),
        with_derived(edges, out, cls, j).take(out.len() as int) == out,
    decreases edges.len() - j,
{
    let r = with_derived(edges, out, cls, j);
    if 0 <= j < edges.len() {
        if edges[j].1 == cls && !out.contains(edges[j].0) {
            let next = out.push(edges[j].0);
            with_derived_grows(edges, next, cls, j + 1);
            assert(r.take(out.len() as int) =~= r.take(next.len() as int).take(out.len() as int));
            assert(next.take(out.len() as int) =~= out);
        } else {
            with_derived_grows(edges, out, cls, j + 1);
        }
    } else {
        assert(r.take(out.len() as int) =~= out);
    }
}

proof fn with_derived_found(
    edges: Seq<(Seq<char>, Seq<char>)>,
    out: Seq<Seq<char>>,
    i: int,
    j: int,
)
    requires
        found(edges, out),
        grounded(edges, out),
        0 <= i < out.len(),
        0 <= j <= edges.len(),
    ensures
        found(edges, with_derived(edges, out, out[i], j)),
        grounded(edges, with_derived(edges, out, out[i], j)),
    decreases edges.len() - j,
{
    if j < edges.len() {
        if edges[j].1 == out[i] && !out.contains(edges[j].0) {
            push_grounded(edges, out, i, j);
            push_found(edges, out, j);
            with_derived_found(edges, out.push(edges[j].0), i, j + 1);
        } else {
            with_derived_found(edges, out, i, j + 1);
        }
    }
}

/// What derives from `cls` by an edge from `j` on is in what comes out.
proof fn with_derived_has(
    edges: Seq<(Seq<char>, Seq<char>)>,
    out: Seq<Seq<char>>,
    cls: Seq<char>,
    j: int,
    h: int,
)
    requires
        0 <= j <= h < edges.len(),
        edges[h].1 == cls,
    ensures
        with_derived(edges, out, cls, j).contains(edges[h].0),
    decreases edges.len() - j,
{
    let next = if edges[j].1 == cls && !out.contains(edges[j].0) {
        out.push(edges[j].0)
    } else {
        out
    };
    if j < h {
        with_derived_has(edges, next, cls, j + 1, h);
    } else {
        with_derived_grows(edges, next, cls, j + 1);
        let r = with_derived(edges, next, cls, j + 1);
        if out.contains(edges[h].0) {
            let k = choose|k: int| 0 <= k < out.len() && out[k] == edges[h].0;
            assert(r.take(next.len() as int)[k] == edges[h].0);
            assert(r[k] == edges[h].0);
        } else {
            assert(r.take(next.len() as int)[out.len() as int] == edges[h].0);
            assert(r[out.len() as int] == edges[h].0);
        }
    }
}

proof fn with_derived_closed(edges: Seq<(Seq<char>, Seq<char>)>, out: Seq<Seq<char>>, i: int)
    requires
        closed_below(edges, out, i),
        0 <= i < out.len(),
    ensures
        closed_below(edges, with_derived(edges, out, out[i], 0), i + 1),
{
    let r = with_derived(edges, out, out[i], 0);
    with_derived_grows(edges, out, out[i], 0);
    assert forall|h: int, m: int|
        0 <= h < edges.len() && 0 <= m < i + 1 && m < r.len() && (#[trigger] edges[h]).1
            == #[trigger] r[m] implies r.contains(edges[h].0) by {
        assert(r.take(out.len() as int)[m] == out[m]);
        if m < i {
            assert(out.contains(edges[h].0));
            let k = choose|k: int| 0 <= k < out.len() && out[k] == edges[h].0;
            assert(r.take(out.len() as int)[k] == out[k]);
            assert(r[k] == edges[h].0);
        } else {
            with_derived_has(edges, out, out[i], 0, h);
        }
    }
}

proof fn closure_steps(edges: Seq<(Seq<char>, Seq<char>)>, out: Seq<Seq<char>>, i: int)
    requires
        found(edges, out),
        grounded(edges, out),
        closed_below(edges, out, i),
        0 <= i <= out.len(),
    ensures
        found(edges, closure_from(edges, out, i)),
        grounded(edges, closure_from(edges, out, i)),
        closed_below(
            edges,
            closure_from(edges, out, i),
            closure_from(edges, out, i).len() as int,
        ),
        closure_from(edges, out, i)[0] == out[0],
    decreases edges.len() + 1 - i,
{
    found_bound(edges, out);
    if i < out.len() {
        with_derived_found(edges, out, i, 0);
        with_derived_closed(edges, out, i);
        with_derived_grows(edges, out, out[i], 0);
        let next = with_derived(edges, out, out[i], 0);
        assert(next.take(out.len() as int)[0] == out[0]);
        closure_steps(edges, next, i + 1);
    }
}

/// The classes that derive from `root` are `root` and exactly what can be
/// reached from it: `root` comes first, no class comes twice, what derives
/// directly from a class of the list is in the list, and every other class
/// of the list derives directly from an earlier one.
pub proof fn subclasses_are_what_derives(p: ProgramV, root: Seq<char>)
    ensures
        p.subclasses(root).no_duplicates(),
        p.subclasses(root).len() > 0,
        p.subclasses(root)[0] == root,
        forall|j: int|
            0 <= j < p.inheritance.len() && p.subclasses(root).contains(
                (#[trigger] p.inheritance[j]).1,
            ) ==> p.subclasses(root).contains(p.inheritance[j].0),
        grounded(p.inheritance, p.subclasses(root)),
{
    let edges = p.inheritance;
    closure_steps(edges, seq![root], 0);
    let s = p.subclasses(root);
    assert forall|j: int| 0 <= j < edges.len() && s.contains((#[trigger] edges[j]).1) implies s.contains(
        edges[j].0,
    ) by {
        let m = choose|m: int| 0 <= m < s.len() && s[m] == edges[j].1;
        assert(s[m] == edges[j].1);
    }
}

/// Noting a derivation again changes nothing.
pub proof fn inheritance_is_noted_once(
    edges: Seq<(Seq<char>, Seq<char>)>,
    derived: Seq<char>,
    base: Seq<char>,
)
    ensures
        with_edge(with_edge(edges, derived, base), derived, base) == with_edge(
            edges,
            derived,
            base,
        ),
{
    if derived.len() > 0 && base.len() > 0 && !edges.contains((derived, base)) {
        let next = edges.push((derived, base));
        assert(next[edges.len() as int] == (derived, base));
    }
}

} // verus!
