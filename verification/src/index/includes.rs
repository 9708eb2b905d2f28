//! Which file of a project draws in which other.

use crate::ir::program::{add_edge, pairs_view, with_edge};
use crate::paths::{dir_of, directory, file_name, file_name_of, join, joined};
use crate::preproc::lexer::{lex, Lexer};
use crate::preproc::options::{canonical_of, FileV, SourceTree};
use crate::preproc::state::{token_text, token_to_string};
use crate::preproc::token::{tokens_view, KindV, Token, TokenKind, TokenV};
use crate::text::{
    add_name, cat2, clone_names, contains_name, names_view, push_name, str_eq, with_name,
};
use vstd::prelude::*;

verus! {

broadcast use crate::text::take_push;

/// What stands between angle brackets, from `j` on.
pub open spec fn bracketed(tokens: Seq<TokenV>, j: int) -> Option<Seq<char>>
    decreases tokens.len() - j,
{
    if j < 0 || j >= tokens.len() || tokens[j].kind is Newline || tokens[j].kind is Eof {
        None
    } else if tokens[j].kind == KindV::Punct(">"@) {
        Some(Seq::empty())
    } else {
        match bracketed(tokens, j + 1) {
            Some(rest) => Some(token_text(tokens[j].kind) + rest),
            None => None,
        }
    }
}

/// The name that the directive at `i` draws in, where there is one.
pub open spec fn name_drawn(tokens: Seq<TokenV>, i: int) -> Option<Seq<char>> {
    if tokens[i].kind is Hash && (i == 0 || tokens[i - 1].kind is Newline) && i + 2 < tokens.len()
        && tokens[i + 1].kind == KindV::Identifier("include"@) {
        match tokens[i + 2].kind {
            KindV::String(s) => Some(s),
            KindV::Punct(p) => if p == "<"@ {
                bracketed(tokens, i + 3)
            } else {
                None
            },
            _ => None,
        }
    } else {
        None
    }
}

/// The names that the first `n` tokens draw in.
pub open spec fn names_drawn(tokens: Seq<TokenV>, n: int) -> Seq<Seq<char>>
    decreases n,
{
    if n <= 0 {
        Seq::empty()
    } else {
        match name_drawn(tokens, n - 1) {
            Some(name) => names_drawn(tokens, n - 1).push(name),
            None => names_drawn(tokens, n - 1),
        }
    }
}

fn is_punct(t: &Token, p: &str) -> (r: bool)
    ensures
        r == (t@.kind == KindV::Punct(p@)),
{
    match &t.kind {
        TokenKind::Punct(s) => str_eq(s.as_str(), p),
        _ => false,
    }
}

fn find_bracketed(tokens: &Vec<Token>, from: usize) -> (r: Option<String>)
    ensures
        match r {
            Some(s) => bracketed(tokens_view(tokens@), from as int) == Some(s@),
            None => bracketed(tokens_view(tokens@), from as int) is None,
        },
{
    let ghost all = tokens_view(tokens@);
    let ghost goal = bracketed(all, from as int);
    let mut out = String::new();
    let mut j: usize = from;
    assert(match bracketed(all, from as int) {
        Some(rest) => out@ + rest =~= rest,
        None => true,
    });
    while j < tokens.len()
        invariant
            all == tokens_view(tokens@),
            goal == bracketed(all, from as int),
            goal == (match bracketed(all, j as int) {
                Some(rest) => Some(out@ + rest),
                None => None,
            }),
        decreases tokens@.len() - j,
    {
        let t = &tokens[j];
        assert(all[j as int] == t@);
        match &t.kind {
            TokenKind::Newline | TokenKind::Eof => {
                return None;
            },
            _ => {},
        }
        if is_punct(t, ">") {
            assert(out@ + Seq::<char>::empty() =~= out@);
            return Some(out);
        }
        let text = token_to_string(&t.kind);
        let ghost before = out@;
        out = cat2(out.as_str(), text.as_str());
        assert(match bracketed(all, j + 1) {
            Some(rest) => before + (text@ + rest) =~= (before + text@) + rest,
            None => true,
        });
        j = j + 1;
    }
    None
}

fn find_name_drawn(tokens: &Vec<Token>, i: usize) -> (r: Option<String>)
    requires
        i < tokens@.len(),
    ensures
        match r {
            Some(s) => name_drawn(tokens_view(tokens@), i as int) == Some(s@),
            None => name_drawn(tokens_view(tokens@), i as int) is None,
        },
{
    let ghost all = tokens_view(tokens@);
    assert(all[i as int] == tokens@[i as int]@);
    match &tokens[i].kind {
        TokenKind::Hash => {},
        _ => {
            return None;
        },
    }
    if i > 0 {
        assert(all[i - 1] == tokens@[i - 1]@);
        match &tokens[i - 1].kind {
            TokenKind::Newline => {},
            _ => {
                return None;
            },
        }
    }
    if tokens.len() - i <= 2 {
        return None;
    }
    assert(all[i + 1] == tokens@[i + 1]@);
    assert(all[i + 2] == tokens@[i + 2]@);
    match &tokens[i + 1].kind {
        TokenKind::Identifier(s) => {
            if !str_eq(s.as_str(), "include") {
                return None;
            }
        },
        _ => {
            return None;
        },
    }
    match &tokens[i + 2].kind {
        TokenKind::String(s) => Some(s.clone()),
        TokenKind::Punct(p) => if str_eq(p.as_str(), "<") {
            if tokens.len() - i <= 3 {
                return None;
            }
            find_bracketed(tokens, i + 3)
        } else {
            None
        },
        _ => None,
    }
}

/// The names that a text draws in, in order.
pub fn find_names_drawn(text: &str) -> (r: Vec<String>)
    ensures
        names_view(r@) == names_drawn(lex(text@), lex(text@).len() as int),
{
    let tokens = Lexer::new(text).tokenize();
    let ghost all = tokens_view(tokens@);
    let mut out: Vec<String> = Vec::new();
    let mut i: usize = 0;
    assert(names_view(out@) =~= Seq::empty());
    while i < tokens.len()
        invariant
            all == tokens_view(tokens@),
            i <= tokens@.len(),
            names_view(out@) == names_drawn(all, i as int),
        decreases tokens@.len() - i,
    {
        if let Some(name) = find_name_drawn(&tokens, i) {
            push_name(&mut out, name);
        }
        i = i + 1;
    }
    out
}

/// A project: its files, the directories of its headers, and which file draws
/// in which other.
pub struct IncludeGraph {
    pub files: Vec<String>,
    pub include_dirs: Vec<String>,
    /// The file that draws in, then the file that is drawn in.
    pub edges: Vec<(String, String)>,
}

/// The mathematical form of an [`IncludeGraph`].
#[verifier::ext_equal]
pub struct GraphV {
    pub files: Seq<Seq<char>>,
    pub include_dirs: Seq<Seq<char>>,
    pub edges: Seq<(Seq<char>, Seq<char>)>,
}

impl View for IncludeGraph {
    type V = GraphV;

    open spec fn view(&self) -> GraphV {
        GraphV {
            files: names_view(self.files@),
            include_dirs: names_view(self.include_dirs@),
            edges: pairs_view(self.edges@),
        }
    }
}

/// The directories of the first `n` files, each once.
pub open spec fn dirs_of(files: Seq<Seq<char>>, n: int) -> Seq<Seq<char>>
    decreases n,
{
    if n <= 0 {
        Seq::empty()
    } else {
        with_name(dirs_of(files, n - 1), dir_of(files[n - 1]))
    }
}

/// The first file from `i` on that has a bare name.
pub open spec fn file_called(files: Seq<Seq<char>>, name: Seq<char>, i: int) -> Option<Seq<char>>
    decreases files.len() - i,
{
    if i < 0 || i >= files.len() {
        None
    } else if file_name_of(files[i]) == name {
        Some(files[i])
    } else {
        file_called(files, name, i + 1)
    }
}

impl GraphV {
    /// The file that a name means in one of the directories from `i` on.
    pub open spec fn in_dirs(self, tree: Map<Seq<char>, FileV>, name: Seq<char>, i: int) -> Option<
        Seq<char>,
    >
        decreases self.include_dirs.len() - i,
    {
        if i < 0 || i >= self.include_dirs.len() {
            None
        } else if self.files.contains(canonical_of(tree, joined(self.include_dirs[i], name))) {
            Some(canonical_of(tree, joined(self.include_dirs[i], name)))
        } else {
            self.in_dirs(tree, name, i + 1)
        }
    }

    /// The file of the project that a name means in a file: beside the file,
    /// in a directory of headers, or else by its bare name.
    pub open spec fn target(self, tree: Map<Seq<char>, FileV>, from: Seq<char>, name: Seq<char>)
        -> Option<Seq<char>> {
        let beside = canonical_of(tree, joined(dir_of(from), name));
        if self.files.contains(beside) {
            Some(beside)
        } else {
            match self.in_dirs(tree, name, 0) {
                Some(f) => Some(f),
                None => file_called(self.files, file_name_of(name), 0),
            }
        }
    }

    /// With what the first `n` names draw into a file.
    pub open spec fn with_names(
        self,
        tree: Map<Seq<char>, FileV>,
        from: Seq<char>,
        names: Seq<Seq<char>>,
        n: int,
    ) -> GraphV
        decreases n,
    {
        if n <= 0 {
            self
        } else {
            let g = self.with_names(tree, from, names, n - 1);
            match self.target(tree, from, names[n - 1]) {
                Some(to) => GraphV { edges: with_edge(g.edges, from, to), ..g },
                None => g,
            }
        }
    }

    /// With what is drawn into a file.
    pub open spec fn with_file(self, tree: Map<Seq<char>, FileV>, from: Seq<char>) -> GraphV {
        if tree.contains_key(from) {
            match tree[from].content {
                Ok(text) => {
                    let names = names_drawn(lex(text), lex(text).len() as int);
                    self.with_names(tree, from, names, names.len() as int)
                },
                Err(e) => self,
            }
        } else {
            self
        }
    }

    /// With what is drawn into the first `n` files.
    pub open spec fn with_files(self, tree: Map<Seq<char>, FileV>, n: int) -> GraphV
        decreases n,
    {
        if n <= 0 {
            self
        } else {
            self.with_files(tree, n - 1).with_file(tree, self.files[n - 1])
        }
    }
}

/// The graph of a project.
pub open spec fn graph_of(
    tree: Map<Seq<char>, FileV>,
    units: Seq<Seq<char>>,
    headers: Seq<Seq<char>>,
) -> GraphV {
    let files = units + headers;
    GraphV {
        files,
        include_dirs: dirs_of(headers, headers.len() as int),
        edges: Seq::empty(),
    }.with_files(tree, files.len() as int)
}

/// `seen` with what the edges from `j` on draw into a file.
pub open spec fn with_drawn(
    edges: Seq<(Seq<char>, Seq<char>)>,
    seen: Seq<Seq<char>>,
    from: Seq<char>,
    j: int,
) -> Seq<Seq<char>>
    decreases edges.len() - j,
{
    if j < 0 || j >= edges.len() {
        seen
    } else if edges[j].0 == from {
        with_drawn(edges, with_name(seen, edges[j].1), from, j + 1)
    } else {
        with_drawn(edges, seen, from, j + 1)
    }
}

/// `seen` with all that is drawn, directly or not, into its files from `i` on.
/// There are at most `bound` of them.
pub open spec fn drawn_from(
    edges: Seq<(Seq<char>, Seq<char>)>,
    seen: Seq<Seq<char>>,
    i: int,
    bound: int,
) -> Seq<Seq<char>>
    decreases bound - i,
{
    if i < 0 || i >= seen.len() || i >= bound {
        seen
    } else {
        drawn_from(edges, with_drawn(edges, seen, seen[i], 0), i + 1, bound)
    }
}

/// All that is drawn into files, and the files.
pub open spec fn reachable(
    edges: Seq<(Seq<char>, Seq<char>)>,
    starts: Seq<Seq<char>>,
) -> Seq<Seq<char>> {
    drawn_from(edges, starts, 0, (starts.len() + edges.len()) as int)
}

/// The files behind the starts are drawn in by an edge, and none of them is
/// there twice.
spec fn visited(
    edges: Seq<(Seq<char>, Seq<char>)>,
    starts: Seq<Seq<char>>,
    seen: Seq<Seq<char>>,
) -> bool {
    &&& starts.len() <= seen.len()
    &&& seen.take(starts.len() as int) == starts
    &&& seen.skip(starts.len() as int).no_duplicates()
    &&& forall|k: int|
        starts.len() <= k < seen.len() ==> exists|j: int|
            0 <= j < edges.len() && (#[trigger] edges[j]).1 == #[trigger] seen[k]
}

proof fn visited_bound(
    edges: Seq<(Seq<char>, Seq<char>)>,
    starts: Seq<Seq<char>>,
    seen: Seq<Seq<char>>,
)
    requires
        visited(edges, starts, seen),
    ensures
        seen.len() <= starts.len() + edges.len(),
{
    let tail = seen.skip(starts.len() as int);
    let all = edges.map_values(|e: (Seq<char>, Seq<char>)| e.1);
    tail.unique_seq_to_set();
    all.lemma_cardinality_of_set();
    assert(tail.to_set().subset_of(all.to_set())) by {
        assert forall|f: Seq<char>| tail.to_set().contains(f) implies all.to_set().contains(f) by {
            let k = choose|k: int| 0 <= k < tail.len() && tail[k] == f;
            assert(seen[starts.len() + k] == f);
            let j = choose|j: int|
                0 <= j < edges.len() && (#[trigger] edges[j]).1 == seen[starts.len() + k];
            assert(all[j] == f);
        }
    }
    vstd::set_lib::lemma_len_subset(tail.to_set(), all.to_set());
}

proof fn visited_more(
    edges: Seq<(Seq<char>, Seq<char>)>,
    starts: Seq<Seq<char>>,
    seen: Seq<Seq<char>>,
    j: int,
)
    requires
        visited(edges, starts, seen),
        0 <= j < edges.len(),
    ensures
        visited(edges, starts, with_name(seen, edges[j].1)),
{
    let f = edges[j].1;
    if !seen.contains(f) {
        let more = seen.push(f);
        let k = starts.len() as int;
        assert(more.take(k) =~= seen.take(k));
        assert(more.skip(k) =~= seen.skip(k).push(f));
        assert forall|i: int| starts.len() <= i < more.len() implies exists|m: int|
            0 <= m < edges.len() && (#[trigger] edges[m]).1 == #[trigger] more[i] by {
            if i < seen.len() {
                assert(seen[i] == more[i]);
                let m = choose|m: int| 0 <= m < edges.len() && (#[trigger] edges[m]).1 == seen[i];
                assert(edges[m].1 == more[i]);
            } else {
                assert(edges[j].1 == more[i]);
            }
        }
        assert forall|a: int, b: int|
            0 <= a < b < more.skip(k).len() implies more.skip(k)[a] != more.skip(k)[b] by {
            if b == seen.skip(k).len() {
                assert(seen[k + a] != f);
            } else {
                assert(seen.skip(k)[a] != seen.skip(k)[b]);
            }
        }
    }
}

fn find_file_called(files: &Vec<String>, name: &str) -> (r: Option<String>)
    ensures
        match r {
            Some(f) => file_called(names_view(files@), name@, 0) == Some(f@),
            None => file_called(names_view(files@), name@, 0) is None,
        },
{
    let mut i: usize = 0;
    while i < files.len()
        invariant
            i <= files@.len(),
            file_called(names_view(files@), name@, i as int) == file_called(
                names_view(files@),
                name@,
                0,
            ),
        decreases files@.len() - i,
    {
        assert(names_view(files@)[i as int] == files@[i as int]@);
        let own = file_name(files[i].as_str());
        if str_eq(own.as_str(), name) {
            return Some(files[i].clone());
        }
        i = i + 1;
    }
    None
}

/// The directories of files, each once.
pub fn directories_of(files: &Vec<String>) -> (r: Vec<String>)
    ensures
        names_view(r@) == dirs_of(names_view(files@), files@.len() as int),
{
    let mut out: Vec<String> = Vec::new();
    let mut i: usize = 0;
    assert(names_view(out@) =~= Seq::empty());
    while i < files.len()
        invariant
            i <= files@.len(),
            names_view(out@) == dirs_of(names_view(files@), i as int),
        decreases files@.len() - i,
    {
        assert(names_view(files@)[i as int] == files@[i as int]@);
        let dir = directory(files[i].as_str());
        add_name(&mut out, dir.as_str());
        i = i + 1;
    }
    out
}

impl IncludeGraph {
    /// The graph of a project.
    pub fn build(tree: &SourceTree, units: &Vec<String>, headers: &Vec<String>) -> (r: IncludeGraph)
        ensures
            r@ == graph_of(tree@, names_view(units@), names_view(headers@)),
    {
        let mut files = clone_names(units);
        let mut i: usize = 0;
        assert(names_view(units@) + names_view(headers@).take(0) =~= names_view(units@));
        while i < headers.len()
            invariant
                i <= headers@.len(),
                names_view(files@) == names_view(units@) + names_view(headers@).take(i as int),
            decreases headers@.len() - i,
        {
            push_name(&mut files, headers[i].clone());
            assert(names_view(headers@)[i as int] == headers@[i as int]@);
            assert(names_view(units@) + names_view(headers@).take(i + 1) =~= (names_view(units@)
                + names_view(headers@).take(i as int)).push(names_view(headers@)[i as int]));
            i = i + 1;
        }
        assert(names_view(headers@).take(i as int) =~= names_view(headers@));
        let edges: Vec<(String, String)> = Vec::new();
        assert(pairs_view(edges@) =~= Seq::empty());
        let mut graph = IncludeGraph { files, include_dirs: directories_of(headers), edges };
        let ghost start = graph@;
        let mut j: usize = 0;
        while j < graph.files.len()
            invariant
                j <= graph.files@.len(),
                graph@.files == start.files,
                graph@.include_dirs == start.include_dirs,
                graph@ == start.with_files(tree@, j as int),
            decreases graph.files@.len() - j,
        {
            let path = graph.files[j].clone();
            assert(start.files[j as int] == path@);
            graph.add_includes(tree, path.as_str());
            j = j + 1;
        }
        graph
    }

    fn find_target(&self, tree: &SourceTree, from: &str, name: &str) -> (r: Option<String>)
        ensures
            match r {
                Some(f) => self@.target(tree@, from@, name@) == Some(f@),
                None => self@.target(tree@, from@, name@) is None,
            },
    {
        let dir = directory(from);
        let place = join(dir.as_str(), name);
        let beside = tree.canonicalize(place.as_str());
        if contains_name(&self.files, beside.as_str()) {
            return Some(beside);
        }
        let mut i: usize = 0;
        while i < self.include_dirs.len()
            invariant
                i <= self.include_dirs@.len(),
                self@.in_dirs(tree@, name@, i as int) == self@.in_dirs(tree@, name@, 0),
                !self@.files.contains(canonical_of(tree@, joined(dir_of(from@), name@))),
            decreases self.include_dirs@.len() - i,
        {
            assert(self@.include_dirs[i as int] == self.include_dirs@[i as int]@);
            let place = join(self.include_dirs[i].as_str(), name);
            let file = tree.canonicalize(place.as_str());
            if contains_name(&self.files, file.as_str()) {
                return Some(file);
            }
            i = i + 1;
        }
        let bare = file_name(name);
        find_file_called(&self.files, bare.as_str())
    }

    fn add_includes(&mut self, tree: &SourceTree, from: &str)
        ensures
            final(self)@ == old(self)@.with_file(tree@, from@),
            final(self)@.files == old(self)@.files,
            final(self)@.include_dirs == old(self)@.include_dirs,
            final(self).files@.len() == old(self).files@.len(),
    {
        if let Some(file) = tree.get(from) {
            if let Ok(text) = &file.content {
                let names = find_names_drawn(text.as_str());
                let ghost start = self@;
                let ghost all = names_view(names@);
                let mut i: usize = 0;
                while i < names.len()
                    invariant
                        all == names_view(names@),
                        i <= names@.len(),
                        start == old(self)@,
                        self@.files == start.files,
                        self@.include_dirs == start.include_dirs,
                        self.files@.len() == old(self).files@.len(),
                        self@ == start.with_names(tree@, from@, all, i as int),
                    decreases names@.len() - i,
                {
                    let name = &names[i];
                    assert(all[i as int] == name@);
                    proof {
                        same_target(self@, start, tree@, from@, name@);
                    }
                    if let Some(to) = self.find_target(tree, from, name.as_str()) {
                        add_edge(&mut self.edges, from, to.as_str());
                    }
                    i = i + 1;
                }
            }
        }
    }

    /// All that is drawn into files, and the files.
    pub fn reachable_from(&self, starts: &Vec<String>) -> (r: Vec<String>)
        ensures
            names_view(r@) == reachable(self@.edges, names_view(starts@)),
    {
        let ghost edges = self@.edges;
        let ghost first = names_view(starts@);
        let ghost bound = (first.len() + edges.len()) as int;
        let mut seen = clone_names(starts);
        assert(names_view(seen@).take(first.len() as int) =~= first);
        let mut i: usize = 0;
        while i < seen.len()
            invariant
                edges == self@.edges,
                first == names_view(starts@),
                bound == first.len() + edges.len(),
                i <= seen@.len(),
                visited(edges, first, names_view(seen@)),
                drawn_from(edges, names_view(seen@), i as int, bound) == reachable(edges, first),
            decreases bound - i,
        {
            let ghost before = names_view(seen@);
            proof {
                visited_bound(edges, first, before);
            }
            let cur = seen[i].clone();
            let mut j: usize = 0;
            while j < self.edges.len()
                invariant
                    edges == self@.edges,
                    j <= self.edges@.len(),
                    i < names_view(seen@).len(),
                    visited(edges, first, names_view(seen@)),
                    with_drawn(edges, names_view(seen@), cur@, j as int) == with_drawn(
                        edges,
                        before,
                        cur@,
                        0,
                    ),
                decreases self.edges@.len() - j,
            {
                assert(edges[j as int] == (self.edges@[j as int].0@, self.edges@[j as int].1@));
                if str_eq(self.edges[j].0.as_str(), cur.as_str()) {
                    proof {
                        visited_more(edges, first, names_view(seen@), j as int);
                    }
                    add_name(&mut seen, self.edges[j].1.as_str());
                }
                j = j + 1;
            }
            i = i + 1;
        }
        seen
    }
}

/// What a name means does not depend on the edges.
proof fn same_target(
    a: GraphV,
    b: GraphV,
    tree: Map<Seq<char>, FileV>,
    from: Seq<char>,
    name: Seq<char>,
)
    requires
        a.files == b.files,
        a.include_dirs == b.include_dirs,
    ensures
        a.target(tree, from, name) == b.target(tree, from, name),
{
    same_in_dirs(a, b, tree, name, 0);
}

proof fn same_in_dirs(
    a: GraphV,
    b: GraphV,
    tree: Map<Seq<char>, FileV>,
    name: Seq<char>,
    i: int,
)
    requires
        a.files == b.files,
        a.include_dirs == b.include_dirs,
    ensures
        a.in_dirs(tree, name, i) == b.in_dirs(tree, name, i),
    decreases a.include_dirs.len() - i,
{
    if 0 <= i < a.include_dirs.len() {
        same_in_dirs(a, b, tree, name, i + 1);
    }
}

/// Whether what is drawn into one of the files is among them.
pub open spec fn served(
    edges: Seq<(Seq<char>, Seq<char>)>,
    seen: Seq<Seq<char>>,
    k: int,
) -> bool {
    forall|m: int|
        0 <= m < edges.len() && (#[trigger] edges[m]).0 == seen[k] ==> seen.contains(edges[m].1)
}

proof fn with_drawn_facts(
    edges: Seq<(Seq<char>, Seq<char>)>,
    starts: Seq<Seq<char>>,
    seen: Seq<Seq<char>>,
    from: Seq<char>,
    j: int,
)
    requires
        visited(edges, starts, seen),
        0 <= j <= edges.len(),
    ensures
        ({
            let t = with_drawn(edges, seen, from, j);
            &&& visited(edges, starts, t)
            &&& seen.len() <= t.len()
            &&& forall|k: int| 0 <= k < seen.len() ==> #[trigger] t[k] == seen[k]
            &&& forall|m: int|
                j <= m < edges.len() && (#[trigger] edges[m]).0 == from ==> t.contains(edges[m].1)
            &&& forall|k: int|
                seen.len() <= k < t.len() ==> exists|m: int|
                    0 <= m < edges.len() && #[trigger] edges[m] == (from, #[trigger] t[k])
        }),
    decreases edges.len() - j,
{
    if j < edges.len() {
        if edges[j].0 == from {
            visited_more(edges, starts, seen, j);
            let next = with_name(seen, edges[j].1);
            with_drawn_facts(edges, starts, next, from, j + 1);
            let t = with_drawn(edges, next, from, j + 1);
            assert(next.contains(edges[j].1)) by {
                if !seen.contains(edges[j].1) {
                    assert(next[seen.len() as int] == edges[j].1);
                }
            }
            let k = choose|k: int| 0 <= k < next.len() && next[k] == edges[j].1;
            assert(t[k] == edges[j].1);
            assert forall|k: int| 0 <= k < seen.len() implies #[trigger] t[k] == seen[k] by {
                assert(next[k] == seen[k]);
            }
            assert forall|k: int| seen.len() <= k < t.len() implies exists|m: int|
                0 <= m < edges.len() && #[trigger] edges[m] == (from, #[trigger] t[k]) by {
                if k < next.len() {
                    assert(t[k] == next[k]);
                    assert(edges[j] == (from, t[k]));
                }
            }
        } else {
            with_drawn_facts(edges, starts, seen, from, j + 1);
        }
    }
}

proof fn drawn_serves(
    edges: Seq<(Seq<char>, Seq<char>)>,
    starts: Seq<Seq<char>>,
    seen: Seq<Seq<char>>,
    i: int,
    bound: int,
)
    requires
        visited(edges, starts, seen),
        bound == starts.len() + edges.len(),
        0 <= i <= seen.len(),
        forall|k: int| 0 <= k < i ==> #[trigger] served(edges, seen, k),
    ensures
        ({
            let r = drawn_from(edges, seen, i, bound);
            &&& seen.len() <= r.len()
            &&& forall|k: int| 0 <= k < seen.len() ==> #[trigger] r[k] == seen[k]
            &&& forall|k: int| 0 <= k < r.len() ==> #[trigger] served(edges, r, k)
        }),
    decreases bound - i,
{
    visited_bound(edges, starts, seen);
    if i < seen.len() {
        let t = with_drawn(edges, seen, seen[i], 0);
        with_drawn_facts(edges, starts, seen, seen[i], 0);
        assert forall|k: int| 0 <= k < i + 1 implies #[trigger] served(edges, t, k) by {
            assert(t[k] == seen[k]);
            if k < i {
                assert(served(edges, seen, k));
                assert forall|m: int|
                    0 <= m < edges.len() && (#[trigger] edges[m]).0 == t[k] implies t.contains(
                    edges[m].1,
                ) by {
                    let q = choose|q: int| 0 <= q < seen.len() && seen[q] == edges[m].1;
                    assert(t[q] == edges[m].1);
                }
            }
        }
        drawn_serves(edges, starts, t, i + 1, bound);
        let r = drawn_from(edges, seen, i, bound);
        assert forall|k: int| 0 <= k < seen.len() implies #[trigger] r[k] == seen[k] by {
            assert(t[k] == seen[k]);
        }
    }
}

/// The files that are reached hold those that they are reached from, and all
/// that is drawn into any of them.
pub proof fn reached_files_are_closed(
    edges: Seq<(Seq<char>, Seq<char>)>,
    starts: Seq<Seq<char>>,
    j: int,
)
    requires
        0 <= j < edges.len(),
    ensures
        forall|f: Seq<char>| #[trigger] starts.contains(f) ==> reachable(edges, starts).contains(f),
        reachable(edges, starts).contains(edges[j].0) ==> reachable(edges, starts).contains(
            edges[j].1,
        ),
{
    let bound = (starts.len() + edges.len()) as int;
    assert(starts.take(starts.len() as int) =~= starts);
    assert(starts.skip(starts.len() as int) =~= Seq::<Seq<char>>::empty());
    drawn_serves(edges, starts, starts, 0, bound);
    let r = reachable(edges, starts);
    assert forall|f: Seq<char>| #[trigger] starts.contains(f) implies r.contains(f) by {
        let k = choose|k: int| 0 <= k < starts.len() && starts[k] == f;
        assert(r[k] == f);
    }
    if r.contains(edges[j].0) {
        let k = choose|k: int| 0 <= k < r.len() && r[k] == edges[j].0;
        assert(served(edges, r, k));
    }
}

proof fn drawn_stays_inside(
    edges: Seq<(Seq<char>, Seq<char>)>,
    starts: Seq<Seq<char>>,
    seen: Seq<Seq<char>>,
    i: int,
    bound: int,
    inside: spec_fn(Seq<char>) -> bool,
)
    requires
        visited(edges, starts, seen),
        forall|k: int| 0 <= k < seen.len() ==> inside(#[trigger] seen[k]),
        forall|m: int| 0 <= m < edges.len() && inside((#[trigger] edges[m]).0) ==> inside(edges[m].1),
    ensures
        forall|k: int|
            0 <= k < drawn_from(edges, seen, i, bound).len() ==> inside(
                #[trigger] drawn_from(edges, seen, i, bound)[k],
            ),
    decreases bound - i,
{
    if 0 <= i < seen.len() && i < bound {
        let t = with_drawn(edges, seen, seen[i], 0);
        with_drawn_facts(edges, starts, seen, seen[i], 0);
        assert forall|k: int| 0 <= k < t.len() implies inside(#[trigger] t[k]) by {
            if k < seen.len() {
                assert(t[k] == seen[k]);
            } else {
                let m = choose|m: int| 0 <= m < edges.len() && #[trigger] edges[m] == (seen[i], t[k]);
                assert(inside(edges[m].0));
            }
        }
        drawn_stays_inside(edges, starts, t, i + 1, bound, inside);
        let r = drawn_from(edges, seen, i, bound);
        assert(r == drawn_from(edges, t, i + 1, bound));
        assert forall|k: int| 0 <= k < r.len() implies inside(#[trigger] r[k]) by {
            assert(inside(drawn_from(edges, t, i + 1, bound)[k]));
        }
    } else {
        let r = drawn_from(edges, seen, i, bound);
        assert(r == seen);
        assert forall|k: int| 0 <= k < r.len() implies inside(#[trigger] r[k]) by {
            assert(inside(seen[k]));
        }
    }
}

/// Nothing is reached that need not be: a set that holds the starts and all
/// that is drawn into its files holds every file that is reached.
pub proof fn reached_files_are_least(
    edges: Seq<(Seq<char>, Seq<char>)>,
    starts: Seq<Seq<char>>,
    inside: spec_fn(Seq<char>) -> bool,
    f: Seq<char>,
)
    requires
        forall|k: int| 0 <= k < starts.len() ==> inside(#[trigger] starts[k]),
        forall|m: int| 0 <= m < edges.len() && inside((#[trigger] edges[m]).0) ==> inside(edges[m].1),
        reachable(edges, starts).contains(f),
    ensures
        inside(f),
{
    assert(starts.take(starts.len() as int) =~= starts);
    assert(starts.skip(starts.len() as int) =~= Seq::<Seq<char>>::empty());
    drawn_stays_inside(
        edges,
        starts,
        starts,
        0,
        (starts.len() + edges.len()) as int,
        inside,
    );
}

} // verus!
