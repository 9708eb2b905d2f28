//! What a run of the preprocessor works with.

use crate::preproc::line_map::{LineMap, LineMapV};
use crate::preproc::macros::{ops_view, MacroOp, MacroOpV, MacroTable};
use crate::text::{names_view, owned, push_name};
use vstd::hash_map::StringHashMap;
use vstd::prelude::*;

verus! {

/// What a header came to when it was expanded on its own.
pub struct IncludeExpansion {
    pub text: String,
    /// Canonical paths of the files whose contents the text holds.
    pub files: Vec<String>,
    pub line_map: LineMap,
    /// The macro directives that ran, in order.
    pub ops: Vec<MacroOp>,
}

/// The mathematical form of an [`IncludeExpansion`].
#[verifier::ext_equal]
pub struct ExpansionV {
    pub text: Seq<char>,
    pub files: Seq<Seq<char>>,
    pub line_map: LineMapV,
    pub ops: Seq<MacroOpV>,
}

impl View for IncludeExpansion {
    type V = ExpansionV;

    open spec fn view(&self) -> ExpansionV {
        ExpansionV {
            text: self.text@,
            files: names_view(self.files@),
            line_map: self.line_map@,
            ops: ops_view(self.ops@),
        }
    }
}

/// Expansions by the canonical path of the header.
pub struct ExpansionCache {
    entries: StringHashMap<IncludeExpansion>,
}

impl View for ExpansionCache {
    type V = Map<Seq<char>, ExpansionV>;

    closed spec fn view(&self) -> Map<Seq<char>, ExpansionV> {
        self.entries@.map_values(|e: IncludeExpansion| e@)
    }
}

impl ExpansionCache {
    pub fn new() -> (r: ExpansionCache)
        ensures
            r@ == Map::<Seq<char>, ExpansionV>::empty(),
    {
        let r = ExpansionCache { entries: StringHashMap::new() };
        assert(r@ =~= Map::<Seq<char>, ExpansionV>::empty());
        r
    }

    pub fn get(&self, path: &str) -> (r: Option<&IncludeExpansion>)
        ensures
            match r {
                Some(e) => self@.contains_key(path@) && self@[path@] == e@,
                None => !self@.contains_key(path@),
            },
    {
        self.entries.get(path)
    }

    pub fn contains_key(&self, path: &str) -> (r: bool)
        ensures
            r == self@.contains_key(path@),
    {
        self.entries.contains_key(path)
    }

    /// Adds an entry unless there is one for the path.
    pub fn insert_new(&mut self, path: String, entry: IncludeExpansion)
        ensures
            final(self)@ == if old(self)@.contains_key(path@) {
                old(self)@
            } else {
                old(self)@.insert(path@, entry@)
            },
    {
        if !self.entries.contains_key(path.as_str()) {
            self.entries.insert(path, entry);
            assert(self@ =~= old(self)@.insert(path@, entry@));
        }
    }

    /// Adds the entries for new paths.
    pub fn absorb(&mut self, entries: Vec<(String, IncludeExpansion)>)
        ensures
            final(self)@ == absorbed(old(self)@, added_view(entries@)),
    {
        let mut rest = entries;
        let ghost start = self@;
        let ghost all = entries@;
        let n = rest.len();
        let mut i: usize = 0;
        while i < n
            invariant
                i <= n == all.len(),
                rest@ == all.skip(i as int),
                self@ == absorbed(start, added_view(all).take(i as int)),
            decreases n - i,
        {
            let ghost r = rest@;
            let (path, entry) = rest.remove(0);
            self.insert_new(path, entry);
            proof {
                assert(r[0] == all[i as int]);
                assert(added_view(all).take(i + 1).drop_last() =~= added_view(all).take(
                    i as int,
                ));
                assert(added_view(all).take(i + 1).last() == (r[0].0@, r[0].1@));
                assert(rest@ =~= all.skip(i + 1));
            }
            i = i + 1;
        }
        assert(added_view(all).take(i as int) =~= added_view(all));
    }
}

/// Expansions with the paths of their headers, in order.
pub open spec fn added_view(s: Seq<(String, IncludeExpansion)>) -> Seq<(Seq<char>, ExpansionV)> {
    Seq::new(s.len(), |i: int| (s[i].0@, s[i].1@))
}

/// A cache after entries for new paths were added.
pub open spec fn absorbed(
    cache: Map<Seq<char>, ExpansionV>,
    entries: Seq<(Seq<char>, ExpansionV)>,
) -> Map<Seq<char>, ExpansionV>
    decreases entries.len(),
{
    if entries.len() == 0 {
        cache
    } else {
        let before = absorbed(cache, entries.drop_last());
        let (path, entry) = entries.last();
        if before.contains_key(path) {
            before
        } else {
            before.insert(path, entry)
        }
    }
}

/// A path that exists.
pub struct SourceFile {
    /// The one path that all spellings of it share.
    pub canonical: String,
    /// False for directories and the like.
    pub is_file: bool,
    /// What is in it, or why it cannot be read.
    pub content: Result<String, String>,
}

/// The mathematical form of a [`SourceFile`].
#[verifier::ext_equal]
pub struct FileV {
    pub canonical: Seq<char>,
    pub is_file: bool,
    pub content: Result<Seq<char>, Seq<char>>,
}

impl View for SourceFile {
    type V = FileV;

    open spec fn view(&self) -> FileV {
        FileV {
            canonical: self.canonical@,
            is_file: self.is_file,
            content: match self.content {
                Ok(s) => Ok(s@),
                Err(s) => Err(s@),
            },
        }
    }
}

/// The part of the file system that a run can see: what is known of each
/// path. A path that is not here does not exist.
pub struct SourceTree {
    files: StringHashMap<SourceFile>,
}

impl View for SourceTree {
    type V = Map<Seq<char>, FileV>;

    closed spec fn view(&self) -> Map<Seq<char>, FileV> {
        self.files@.map_values(|f: SourceFile| f@)
    }
}

impl SourceTree {
    pub fn new() -> (r: SourceTree)
        ensures
            r@ == Map::<Seq<char>, FileV>::empty(),
    {
        let r = SourceTree { files: StringHashMap::new() };
        assert(r@ =~= Map::<Seq<char>, FileV>::empty());
        r
    }

    pub fn get(&self, path: &str) -> (r: Option<&SourceFile>)
        ensures
            match r {
                Some(f) => self@.contains_key(path@) && self@[path@] == f@,
                None => !self@.contains_key(path@),
            },
    {
        self.files.get(path)
    }

    pub fn insert(&mut self, path: String, file: SourceFile)
        ensures
            final(self)@ == old(self)@.insert(path@, file@),
    {
        self.files.insert(path, file);
        assert(self@ =~= old(self)@.insert(path@, file@));
    }

    /// Adds a readable file whose path is its canonical one.
    pub fn add_file(&mut self, path: &str, content: &str)
        ensures
            final(self)@ == old(self)@.insert(
                path@,
                FileV { canonical: path@, is_file: true, content: Ok(content@) },
            ),
    {
        let file = SourceFile {
            canonical: owned(path),
            is_file: true,
            content: Ok(owned(content)),
        };
        self.insert(owned(path), file);
    }

    /// The one path that all spellings of `path` share; `path` itself where
    /// nothing is known of it.
    pub fn canonicalize(&self, path: &str) -> (r: String)
        ensures
            r@ == canonical_of(self@, path@),
    {
        match self.get(path) {
            Some(f) => f.canonical.clone(),
            None => owned(path),
        }
    }
}

/// The one path that all spellings of `path` share.
pub open spec fn canonical_of(tree: Map<Seq<char>, FileV>, path: Seq<char>) -> Seq<char> {
    if tree.contains_key(path) {
        tree[path].canonical
    } else {
        path
    }
}

/// Paths by file name.
pub struct BasenameIndex {
    paths: StringHashMap<Vec<String>>,
}

impl View for BasenameIndex {
    type V = Map<Seq<char>, Seq<Seq<char>>>;

    closed spec fn view(&self) -> Map<Seq<char>, Seq<Seq<char>>> {
        self.paths@.map_values(|v: Vec<String>| names_view(v@))
    }
}

impl BasenameIndex {
    pub fn new() -> (r: BasenameIndex)
        ensures
            r@ == Map::<Seq<char>, Seq<Seq<char>>>::empty(),
    {
        let r = BasenameIndex { paths: StringHashMap::new() };
        assert(r@ =~= Map::<Seq<char>, Seq<Seq<char>>>::empty());
        r
    }

    pub fn get(&self, name: &str) -> (r: Option<&Vec<String>>)
        ensures
            match r {
                Some(v) => self@.contains_key(name@) && self@[name@] == names_view(v@),
                None => !self@.contains_key(name@),
            },
    {
        self.paths.get(name)
    }

    pub fn insert(&mut self, name: String, paths: Vec<String>)
        ensures
            final(self)@ == old(self)@.insert(name@, names_view(paths@)),
    {
        self.paths.insert(name, paths);
        assert(self@ =~= old(self)@.insert(name@, names_view(paths@)));
    }
}

/// What a run works with.
pub struct PreprocessOptions {
    /// Macros defined before the first line, in order.
    pub defines: Vec<(String, String)>,
    /// Directories that headers are looked up in, in order.
    pub include_paths: Vec<String>,
    /// A table that the run starts from in place of an empty one.
    pub shared_macros: Option<MacroTable>,
    /// Whether what the run defines is to be added to the shared table.
    pub accumulate_macros: bool,
    /// Expansions that may be replayed in place of a header.
    pub include_expansion_cache: Option<ExpansionCache>,
    /// Whether the cache must stay as it is.
    pub frozen_expansion_cache: bool,
    /// Whether a header's text goes into the output of what includes it.
    pub inline_include_bodies: bool,
    pub max_include_depth: usize,
    pub max_expanded_tokens: u64,
    pub max_output_bytes: usize,
    pub track_line_map: bool,
    /// Where to look for a header as a last resort.
    pub basename_index: Option<BasenameIndex>,
    /// The files that can be included.
    pub tree: SourceTree,
}

pub const DEFAULT_MAX_INCLUDE_DEPTH: usize = 200;

pub const DEFAULT_MAX_EXPANDED_TOKENS: u64 = 50_000_000;

pub const DEFAULT_MAX_OUTPUT_BYTES: usize = 256_000_000;

impl PreprocessOptions {
    /// Nothing defined, nothing to search, everything inlined, no cache.
    pub fn new() -> (r: PreprocessOptions)
        ensures
            r.defines@ == Seq::<(String, String)>::empty(),
            r.include_paths@ == Seq::<String>::empty(),
            r.shared_macros is None,
            !r.accumulate_macros,
            r.include_expansion_cache is None,
            !r.frozen_expansion_cache,
            r.inline_include_bodies,
            r.max_include_depth == DEFAULT_MAX_INCLUDE_DEPTH,
            r.max_expanded_tokens == DEFAULT_MAX_EXPANDED_TOKENS,
            r.max_output_bytes == DEFAULT_MAX_OUTPUT_BYTES,
            r.track_line_map,
            r.basename_index is None,
            r.tree@ == Map::<Seq<char>, FileV>::empty(),
    {
        PreprocessOptions {
            defines: Vec::new(),
            include_paths: Vec::new(),
            shared_macros: None,
            accumulate_macros: false,
            include_expansion_cache: None,
            frozen_expansion_cache: false,
            inline_include_bodies: true,
            max_include_depth: DEFAULT_MAX_INCLUDE_DEPTH,
            max_expanded_tokens: DEFAULT_MAX_EXPANDED_TOKENS,
            max_output_bytes: DEFAULT_MAX_OUTPUT_BYTES,
            track_line_map: true,
            basename_index: None,
            tree: SourceTree::new(),
        }
    }

    pub fn with_define(self, name: &str, value: &str) -> (r: PreprocessOptions)
        ensures
            r.defines@.len() == self.defines@.len() + 1,
            r.defines@.drop_last() == self.defines@,
            r.defines@.last().0@ == name@,
            r.defines@.last().1@ == value@,
            r == (PreprocessOptions { defines: r.defines, ..self }),
    {
        let mut r = self;
        r.defines.push((owned(name), owned(value)));
        assert(r.defines@.drop_last() =~= self.defines@);
        r
    }

    pub fn with_include(self, path: &str) -> (r: PreprocessOptions)
        ensures
            names_view(r.include_paths@) == names_view(self.include_paths@).push(path@),
            r == (PreprocessOptions { include_paths: r.include_paths, ..self }),
    {
        let mut r = self;
        push_name(&mut r.include_paths, owned(path));
        r
    }

    pub fn with_shared_macros(self, table: MacroTable) -> (r: PreprocessOptions)
        ensures
            r == (PreprocessOptions { shared_macros: Some(table), ..self }),
    {
        let mut r = self;
        r.shared_macros = Some(table);
        r
    }

    pub fn with_accumulate_macros(self, on: bool) -> (r: PreprocessOptions)
        ensures
            r == (PreprocessOptions { accumulate_macros: on, ..self }),
    {
        let mut r = self;
        r.accumulate_macros = on;
        r
    }

    pub fn with_include_expansion_cache(self, cache: ExpansionCache) -> (r: PreprocessOptions)
        ensures
            r == (PreprocessOptions { include_expansion_cache: Some(cache), ..self }),
    {
        let mut r = self;
        r.include_expansion_cache = Some(cache);
        r
    }

    pub fn with_frozen_expansion_cache(self, on: bool) -> (r: PreprocessOptions)
        ensures
            r == (PreprocessOptions { frozen_expansion_cache: on, ..self }),
    {
        let mut r = self;
        r.frozen_expansion_cache = on;
        r
    }

    pub fn with_inline_include_bodies(self, on: bool) -> (r: PreprocessOptions)
        ensures
            r == (PreprocessOptions { inline_include_bodies: on, ..self }),
    {
        let mut r = self;
        r.inline_include_bodies = on;
        r
    }

    pub fn with_max_include_depth(self, depth: usize) -> (r: PreprocessOptions)
        ensures
            r == (PreprocessOptions { max_include_depth: depth, ..self }),
    {
        let mut r = self;
        r.max_include_depth = depth;
        r
    }

    pub fn with_max_expanded_tokens(self, tokens: u64) -> (r: PreprocessOptions)
        ensures
            r == (PreprocessOptions { max_expanded_tokens: tokens, ..self }),
    {
        let mut r = self;
        r.max_expanded_tokens = tokens;
        r
    }

    pub fn with_basename_index(self, index: BasenameIndex) -> (r: PreprocessOptions)
        ensures
            r == (PreprocessOptions { basename_index: Some(index), ..self }),
    {
        let mut r = self;
        r.basename_index = Some(index);
        r
    }

    pub fn with_tree(self, tree: SourceTree) -> (r: PreprocessOptions)
        ensures
            r == (PreprocessOptions { tree, ..self }),
    {
        let mut r = self;
        r.tree = tree;
        r
    }
}

} // verus!
