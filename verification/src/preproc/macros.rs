//! Macro definitions and the tables that hold them.

use crate::ir::program::pairs_view;
use crate::preproc::lexer::{lex, Lexer};
use crate::preproc::token::{clone_tokens, push_token, tokens_view, KindV, Token, TokenKind, TokenV};
use crate::text::{clone_names, names_view, owned, take_push};
use vstd::hash_map::StringHashMap;
use vstd::prelude::*;

verus! {

broadcast use take_push;

/// A macro. A variadic one names the parameter that collects the rest last:
/// `__VA_ARGS__` where the definition names none.
#[derive(Debug)]
pub enum MacroDef {
    Object { replacement: Vec<Token> },
    Function { params: Vec<String>, replacement: Vec<Token>, variadic: bool },
}

/// The mathematical form of a [`MacroDef`].
pub enum MacroV {
    Object { replacement: Seq<TokenV> },
    Function { params: Seq<Seq<char>>, replacement: Seq<TokenV>, variadic: bool },
}

impl View for MacroDef {
    type V = MacroV;

    open spec fn view(&self) -> MacroV {
        match *self {
            MacroDef::Object { replacement } => MacroV::Object {
                replacement: tokens_view(replacement@),
            },
            MacroDef::Function { params, replacement, variadic } => MacroV::Function {
                params: names_view(params@),
                replacement: tokens_view(replacement@),
                variadic,
            },
        }
    }
}

impl Clone for MacroDef {
    fn clone(&self) -> (r: Self)
        ensures
            r@ == self@,
    {
        match self {
            MacroDef::Object { replacement } => MacroDef::Object {
                replacement: clone_tokens(replacement.as_slice()),
            },
            MacroDef::Function { params, replacement, variadic } => MacroDef::Function {
                params: clone_names(params),
                replacement: clone_tokens(replacement.as_slice()),
                variadic: *variadic,
            },
        }
    }
}

/// What a `#define` or an `#undef` does to a table.
#[derive(Debug)]
pub enum MacroOp {
    Define(String, MacroDef),
    Undef(String),
}

/// The mathematical form of a [`MacroOp`].
pub enum MacroOpV {
    Define(Seq<char>, MacroV),
    Undef(Seq<char>),
}

impl View for MacroOp {
    type V = MacroOpV;

    open spec fn view(&self) -> MacroOpV {
        match *self {
            MacroOp::Define(name, def) => MacroOpV::Define(name@, def@),
            MacroOp::Undef(name) => MacroOpV::Undef(name@),
        }
    }
}

impl Clone for MacroOp {
    fn clone(&self) -> (r: Self)
        ensures
            r@ == self@,
    {
        match self {
            MacroOp::Define(name, def) => MacroOp::Define(name.clone(), def.clone()),
            MacroOp::Undef(name) => MacroOp::Undef(name.clone()),
        }
    }
}

/// The mathematical form of a list of operations.
pub open spec fn ops_view(s: Seq<MacroOp>) -> Seq<MacroOpV> {
    Seq::new(s.len(), |i: int| s[i]@)
}

/// Appends an operation.
pub fn push_op(ops: &mut Vec<MacroOp>, op: MacroOp)
    ensures
        ops_view(final(ops)@) == ops_view(old(ops)@).push(op@),
{
    let ghost before = ops@;
    ops.push(op);
    assert(ops_view(ops@) =~= ops_view(before).push(op@));
}

/// Copies of the operations from `from` on.
pub fn clone_ops(ops: &Vec<MacroOp>, from: usize) -> (r: Vec<MacroOp>)
    requires
        from <= ops@.len(),
    ensures
        ops_view(r@) == ops_view(ops@).skip(from as int),
{
    let mut out: Vec<MacroOp> = Vec::new();
    let mut i: usize = from;
    while i < ops.len()
        invariant
            from <= i <= ops@.len(),
            ops_view(out@) == ops_view(ops@).subrange(from as int, i as int),
        decreases ops@.len() - i,
    {
        let ghost before = ops_view(out@);
        push_op(&mut out, ops[i].clone());
        assert(before.push(ops@[i as int]@) =~= ops_view(ops@).subrange(from as int, i + 1));
        i = i + 1;
    }
    assert(ops_view(out@) =~= ops_view(ops@).skip(from as int));
    out
}

/// A table after one operation.
pub open spec fn apply_op(table: Map<Seq<char>, MacroV>, op: MacroOpV) -> Map<Seq<char>, MacroV> {
    match op {
        MacroOpV::Define(name, def) => table.insert(name, def),
        MacroOpV::Undef(name) => table.remove(name),
    }
}

/// A table after a list of operations.
pub open spec fn apply_ops(
    table: Map<Seq<char>, MacroV>,
    ops: Seq<MacroOpV>,
) -> Map<Seq<char>, MacroV>
    decreases ops.len(),
{
    if ops.len() == 0 {
        table
    } else {
        apply_op(apply_ops(table, ops.drop_last()), ops.last())
    }
}

/// What the definitions of a hash map are.
pub open spec fn defs_view(m: Map<Seq<char>, MacroDef>) -> Map<Seq<char>, MacroV> {
    m.map_values(|d: MacroDef| d@)
}

/// Macros by name.
pub struct MacroTable {
    defs: StringHashMap<MacroDef>,
}

impl View for MacroTable {
    type V = Map<Seq<char>, MacroV>;

    closed spec fn view(&self) -> Map<Seq<char>, MacroV> {
        defs_view(self.defs@)
    }
}

impl MacroTable {
    pub fn new() -> (r: MacroTable)
        ensures
            r@ == Map::<Seq<char>, MacroV>::empty(),
    {
        let r = MacroTable { defs: StringHashMap::new() };
        assert(r@ =~= Map::<Seq<char>, MacroV>::empty());
        r
    }

    pub fn contains_key(&self, name: &str) -> (r: bool)
        ensures
            r == self@.contains_key(name@),
    {
        self.defs.contains_key(name)
    }

    pub fn get(&self, name: &str) -> (r: Option<&MacroDef>)
        ensures
            match r {
                Some(d) => self@.contains_key(name@) && self@[name@] == d@,
                None => !self@.contains_key(name@),
            },
    {
        self.defs.get(name)
    }

    pub fn insert(&mut self, name: String, def: MacroDef)
        ensures
            final(self)@ == old(self)@.insert(name@, def@),
    {
        self.defs.insert(name, def);
        assert(self@ =~= old(self)@.insert(name@, def@));
    }

    pub fn remove(&mut self, name: &str)
        ensures
            final(self)@ == old(self)@.remove(name@),
    {
        self.defs.remove(name);
        assert(self@ =~= old(self)@.remove(name@));
    }

    /// Runs the directives in order.
    pub fn apply(&mut self, ops: &Vec<MacroOp>)
        ensures
            final(self)@ == apply_ops(old(self)@, ops_view(ops@)),
    {
        let ghost start = self@;
        let mut i: usize = 0;
        assert(ops_view(ops@).take(0) =~= Seq::<MacroOpV>::empty());
        while i < ops.len()
            invariant
                i <= ops@.len(),
                self@ == apply_ops(start, ops_view(ops@).take(i as int)),
            decreases ops@.len() - i,
        {
            match &ops[i] {
                MacroOp::Define(name, def) => self.insert(name.clone(), def.clone()),
                MacroOp::Undef(name) => self.remove(name.as_str()),
            }
            proof {
                let t = ops_view(ops@).take(i + 1);
                assert(t.drop_last() =~= ops_view(ops@).take(i as int));
                assert(t.last() == ops@[i as int]@);
            }
            i = i + 1;
        }
        assert(ops_view(ops@).take(i as int) =~= ops_view(ops@));
    }
}

/// What a name means in a table that has been changed since it was shared.
pub open spec fn overlaid(
    base: Map<Seq<char>, MacroV>,
    changes: Map<Seq<char>, Option<MacroDef>>,
    name: Seq<char>,
) -> Option<MacroV> {
    if changes.contains_key(name) {
        match changes[name] {
            Some(d) => Some(d@),
            None => None,
        }
    } else if base.contains_key(name) {
        Some(base[name])
    } else {
        None
    }
}

/// A shared table and what one run has changed in it.
pub struct LocalMacros<'a> {
    base: Option<&'a MacroTable>,
    changes: StringHashMap<Option<MacroDef>>,
}

impl<'a> LocalMacros<'a> {
    pub closed spec fn base_view(&self) -> Map<Seq<char>, MacroV> {
        match self.base {
            Some(t) => t@,
            None => Map::empty(),
        }
    }

    pub closed spec fn lookup(&self, name: Seq<char>) -> Option<MacroV> {
        overlaid(self.base_view(), self.changes@, name)
    }
}

impl<'a> View for LocalMacros<'a> {
    type V = Map<Seq<char>, MacroV>;

    closed spec fn view(&self) -> Map<Seq<char>, MacroV> {
        Map::new(|n: Seq<char>| self.lookup(n) is Some, |n: Seq<char>| self.lookup(n)->0)
    }
}

impl<'a> LocalMacros<'a> {
    pub fn new(base: Option<&'a MacroTable>) -> (r: LocalMacros<'a>)
        ensures
            r@ == (match base {
                Some(t) => t@,
                None => Map::empty(),
            }),
    {
        let r = LocalMacros { base, changes: StringHashMap::new() };
        assert(r@ =~= r.base_view());
        r
    }

    pub fn contains_key(&self, name: &str) -> (r: bool)
        ensures
            r == self@.contains_key(name@),
    {
        self.get(name).is_some()
    }

    pub fn get(&self, name: &str) -> (r: Option<&MacroDef>)
        ensures
            match r {
                Some(d) => self@.contains_key(name@) && self@[name@] == d@,
                None => !self@.contains_key(name@),
            },
    {
        match self.changes.get(name) {
            Some(Some(d)) => Some(d),
            Some(None) => None,
            None => match self.base {
                Some(t) => t.get(name),
                None => None,
            },
        }
    }

    pub fn insert(&mut self, name: String, def: MacroDef)
        ensures
            final(self)@ == old(self)@.insert(name@, def@),
    {
        self.changes.insert(name, Some(def));
        assert(self@ =~= old(self)@.insert(name@, def@));
    }

    pub fn remove(&mut self, name: &str)
        ensures
            final(self)@ == old(self)@.remove(name@),
    {
        self.changes.insert(owned(name), None);
        assert(self@ =~= old(self)@.remove(name@));
    }
}

/// The tokens of a macro body: those of the text, without its end.
pub open spec fn body_of(text: Seq<char>) -> Seq<TokenV> {
    lex(text).filter(|t: TokenV| t.kind != KindV::Eof)
}

/// The tokens of a macro body given as text.
pub fn lex_macro_body(text: &str) -> (r: Vec<Token>)
    ensures
        tokens_view(r@) == body_of(text@),
{
    let tokens = Lexer::new(text).tokenize();
    let ghost keep = |t: TokenV| t.kind != KindV::Eof;
    let mut out: Vec<Token> = Vec::new();
    let mut i: usize = 0;
    assert(tokens_view(tokens@).take(0) =~= Seq::<TokenV>::empty());
    proof {
        reveal(Seq::filter);
    }
    while i < tokens.len()
        invariant
            i <= tokens@.len(),
            keep == |t: TokenV| t.kind != KindV::Eof,
            tokens_view(out@) == tokens_view(tokens@).take(i as int).filter(keep),
        decreases tokens@.len() - i,
    {
        let ghost all = tokens_view(tokens@);
        proof {
            reveal(Seq::filter);
            assert(all.take(i + 1).drop_last() =~= all.take(i as int));
            assert(all.take(i + 1).last() == tokens@[i as int]@);
        }
        if !matches!(tokens[i].kind, TokenKind::Eof) {
            push_token(&mut out, tokens[i].clone());
        }
        i = i + 1;
    }
    assert(tokens_view(tokens@).take(i as int) =~= tokens_view(tokens@));
    out
}

/// The table that holds one object macro for each definition, later ones
/// first.
pub open spec fn table_of_defines(
    defines: Seq<(Seq<char>, Seq<char>)>,
    table: Map<Seq<char>, MacroV>,
) -> Map<Seq<char>, MacroV>
    decreases defines.len(),
{
    if defines.len() == 0 {
        table
    } else {
        table_of_defines(defines.drop_last(), table).insert(
            defines.last().0,
            MacroV::Object { replacement: body_of(defines.last().1) },
        )
    }
}

/// A table of object macros.
pub fn macro_table_from_defines(defines: &Vec<(String, String)>) -> (r: MacroTable)
    ensures
        r@ == table_of_defines(pairs_view(defines@), Map::empty()),
{
    let ghost all = pairs_view(defines@);
    let mut table = MacroTable::new();
    let mut i: usize = 0;
    assert(all.take(0) =~= Seq::empty());
    while i < defines.len()
        invariant
            all == pairs_view(defines@),
            i <= defines@.len(),
            table@ == table_of_defines(all.take(i as int), Map::empty()),
        decreases defines@.len() - i,
    {
        let body = lex_macro_body(defines[i].1.as_str());
        table.insert(defines[i].0.clone(), MacroDef::Object { replacement: body });
        assert(all.take(i + 1).drop_last() =~= all.take(i as int));
        assert(all.take(i + 1).last() == (defines@[i as int].0@, defines@[i as int].1@));
        i = i + 1;
    }
    assert(all.take(i as int) =~= all);
    table
}

/// The name that a directive is about.
pub open spec fn name_of_op(op: MacroOpV) -> Seq<char> {
    match op {
        MacroOpV::Define(name, def) => name,
        MacroOpV::Undef(name) => name,
    }
}

proof fn defines_have_names(
    defines: Seq<(Seq<char>, Seq<char>)>,
    table: Map<Seq<char>, MacroV>,
    name: Seq<char>,
)
    requires
        table_of_defines(defines, table).contains_key(name),
    ensures
        table.contains_key(name) || exists|i: int|
            0 <= i < defines.len() && (#[trigger] defines[i]).0 == name,
    decreases defines.len(),
{
    if defines.len() > 0 {
        if defines.last().0 == name {
            assert(defines[defines.len() - 1].0 == name);
        } else {
            defines_have_names(defines.drop_last(), table, name);
            if !table.contains_key(name) {
                let i = choose|i: int|
                    0 <= i < defines.drop_last().len() && (#[trigger] defines.drop_last()[i]).0
                        == name;
                assert(defines[i].0 == name);
            }
        }
    }
}

proof fn ops_have_names(table: Map<Seq<char>, MacroV>, ops: Seq<MacroOpV>, name: Seq<char>)
    requires
        apply_ops(table, ops).contains_key(name),
    ensures
        table.contains_key(name) || exists|i: int|
            0 <= i < ops.len() && name_of_op(#[trigger] ops[i]) == name,
    decreases ops.len(),
{
    if ops.len() > 0 {
        if name_of_op(ops.last()) == name {
            assert(name_of_op(ops[ops.len() - 1]) == name);
        } else {
            ops_have_names(table, ops.drop_last(), name);
            if !table.contains_key(name) {
                let i = choose|i: int|
                    0 <= i < ops.drop_last().len() && name_of_op(#[trigger] ops.drop_last()[i])
                        == name;
                assert(name_of_op(ops[i]) == name);
            }
        }
    }
}

/// Puts what a table has for a name into another.
fn put_over(table: &mut MacroTable, done: &MacroTable, name: &str)
    ensures
        final(table)@ == (if done@.contains_key(name@) {
            old(table)@.insert(name@, done@[name@])
        } else {
            old(table)@
        }),
{
    if let Some(def) = done.get(name) {
        table.insert(owned(name), def.clone());
    }
}

/// Puts the table that a run with some definitions ends with over another.
pub fn put_result_over(table: &mut MacroTable, defines: &Vec<(String, String)>, ops: &Vec<MacroOp>)
    ensures
        final(table)@ == old(table)@.union_prefer_right(
            apply_ops(table_of_defines(pairs_view(defines@), Map::empty()), ops_view(ops@)),
        ),
{
    let mut done = macro_table_from_defines(defines);
    let ghost base = done@;
    done.apply(ops);
    let ghost start = table@;
    let ghost d = done@;
    let mut i: usize = 0;
    while i < defines.len()
        invariant
            i <= defines@.len(),
            d == done@,
            forall|k: Seq<char>| #[trigger]
                table@.contains_key(k) <==> start.contains_key(k) || (d.contains_key(k) && exists|
                    a: int,
                | 0 <= a < i && (#[trigger] pairs_view(defines@)[a]).0 == k),
            forall|k: Seq<char>| #[trigger]
                table@.contains_key(k) ==> table@[k] == d[k] && d.contains_key(k) || table@[k]
                    == start[k] && start.contains_key(k) && !(d.contains_key(k) && exists|a: int|
                    0 <= a < i && (#[trigger] pairs_view(defines@)[a]).0 == k),
        decreases defines@.len() - i,
    {
        assert(pairs_view(defines@)[i as int].0 == defines@[i as int].0@);
        put_over(table, &done, defines[i].0.as_str());
        i = i + 1;
    }
    let ghost mid = table@;
    let mut j: usize = 0;
    while j < ops.len()
        invariant
            j <= ops@.len(),
            d == done@,
            forall|k: Seq<char>| #[trigger]
                table@.contains_key(k) <==> mid.contains_key(k) || (d.contains_key(k) && exists|
                    a: int,
                | 0 <= a < j && name_of_op(#[trigger] ops_view(ops@)[a]) == k),
            forall|k: Seq<char>| #[trigger]
                table@.contains_key(k) ==> table@[k] == d[k] && d.contains_key(k) || table@[k]
                    == mid[k] && mid.contains_key(k) && !(d.contains_key(k) && exists|a: int|
                    0 <= a < j && name_of_op(#[trigger] ops_view(ops@)[a]) == k),
        decreases ops@.len() - j,
    {
        assert(ops_view(ops@)[j as int] == ops@[j as int]@);
        match &ops[j] {
            MacroOp::Define(name, def) => {
                put_over(table, &done, name.as_str());
            },
            MacroOp::Undef(name) => {
                put_over(table, &done, name.as_str());
            },
        }
        j = j + 1;
    }
    let ghost goal = start.union_prefer_right(d);
    assert forall|k: Seq<char>| #[trigger] table@.contains_key(k) == goal.contains_key(k) && (
    table@.contains_key(k) ==> table@[k] == goal[k]) by {
        if d.contains_key(k) {
            ops_have_names(base, ops_view(ops@), k);
            if base.contains_key(k) {
                defines_have_names(pairs_view(defines@), Map::empty(), k);
            }
        }
    }
    assert(table@ =~= goal);
}

} // verus!
