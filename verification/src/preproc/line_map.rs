//! Where the preprocessed text comes from.

use crate::text::{clone_names, names_view, owned, push_name, str_eq};
use vstd::prelude::*;

verus! {

broadcast use crate::text::take_push;

/// From `output_offset` on, the output comes from this place.
#[derive(Debug, Clone, Copy, PartialEq, Eq, Structural)]
pub struct LineMapEntry {
    /// Byte offset in the output.
    pub output_offset: u32,
    /// Index into [`LineMap::files`].
    pub file: u32,
    pub line: u32,
    pub col: u32,
}

/// The origins of an output, in the order of their offsets.
#[derive(Debug)]
pub struct LineMap {
    pub files: Vec<String>,
    pub entries: Vec<LineMapEntry>,
}

/// The mathematical form of a [`LineMap`].
#[verifier::ext_equal]
pub struct LineMapV {
    pub files: Seq<Seq<char>>,
    pub entries: Seq<LineMapEntry>,
}

impl View for LineMap {
    type V = LineMapV;

    open spec fn view(&self) -> LineMapV {
        LineMapV { files: names_view(self.files@), entries: self.entries@ }
    }
}

/// `a + b`, at most `u32::MAX`.
pub open spec fn sat_add_u32(a: u32, b: u32) -> u32 {
    if a + b > u32::MAX {
        u32::MAX
    } else {
        (a + b) as u32
    }
}

pub fn add_u32(a: u32, b: u32) -> (r: u32)
    ensures
        r == sat_add_u32(a, b),
{
    if a > u32::MAX - b {
        u32::MAX
    } else {
        a + b
    }
}

/// An offset as entries hold it: `u32::MAX` stands for everything beyond.
pub open spec fn offset_u32(n: usize) -> u32 {
    if n > u32::MAX {
        u32::MAX
    } else {
        n as u32
    }
}

pub fn to_offset(n: usize) -> (r: u32)
    ensures
        r == offset_u32(n),
{
    if n > u32::MAX as usize {
        u32::MAX
    } else {
        n as u32
    }
}

/// The position of the first `name` from `i` on; the length if there is none.
pub open spec fn position_from(names: Seq<Seq<char>>, name: Seq<char>, i: int) -> int
    decreases names.len() - i,
{
    if i < 0 || i >= names.len() || names[i] == name {
        i
    } else {
        position_from(names, name, i + 1)
    }
}

/// The position of the first `name`; the length if there is none.
pub open spec fn position_of(names: Seq<Seq<char>>, name: Seq<char>) -> int {
    position_from(names, name, 0)
}

/// Where a name stands in a list, the length where it does not.
pub fn find_name(names: &Vec<String>, name: &str) -> (r: usize)
    ensures
        r == position_of(names_view(names@), name@),
        r <= names@.len(),
        r < names@.len() ==> names_view(names@)[r as int] == name@,
        r == names@.len() <==> !names_view(names@).contains(name@),
{
    let mut i: usize = 0;
    while i < names.len()
        invariant
            i <= names@.len(),
            position_from(names_view(names@), name@, i as int) == position_of(
                names_view(names@),
                name@,
            ),
            forall|j: int| 0 <= j < i ==> names_view(names@)[j] != name@,
        decreases names@.len() - i,
    {
        if str_eq(names[i].as_str(), name) {
            assert(names_view(names@)[i as int] == name@);
            return i;
        }
        i = i + 1;
    }
    i
}

impl LineMapV {
    pub open spec fn empty() -> LineMapV {
        LineMapV { files: Seq::empty(), entries: Seq::empty() }
    }

    /// With `path` among its files.
    pub open spec fn interned(self, path: Seq<char>) -> LineMapV {
        if self.files.contains(path) {
            self
        } else {
            LineMapV { files: self.files.push(path), ..self }
        }
    }

    /// The index of a file that is interned.
    pub open spec fn index(self, path: Seq<char>) -> u32 {
        position_of(self.files, path) as u32
    }

    /// With all of `paths` among its files.
    pub open spec fn interned_all(self, paths: Seq<Seq<char>>) -> LineMapV
        decreases paths.len(),
    {
        if paths.len() == 0 {
            self
        } else {
            self.interned_all(paths.drop_last()).interned(paths.last())
        }
    }

    /// The index that each of `paths` has when they are interned in order.
    pub open spec fn indices(self, paths: Seq<Seq<char>>) -> Seq<u32> {
        Seq::new(
            paths.len(),
            |i: int| self.interned_all(paths.take(i + 1)).index(paths[i]),
        )
    }

    pub open spec fn pushed(self, offset: usize, file: u32, line: u32, col: u32) -> LineMapV {
        LineMapV {
            entries: self.entries.push(
                LineMapEntry { output_offset: offset_u32(offset), file, line, col },
            ),
            ..self
        }
    }

    /// Only what begins before `offset`.
    pub open spec fn truncated(self, offset: usize) -> LineMapV {
        LineMapV { entries: entries_before(self.entries, offset_u32(offset)), ..self }
    }

    /// Only what begins at `offset` or behind it, counted from there.
    pub open spec fn sliced(self, offset: usize) -> LineMapV {
        LineMapV { entries: entries_from(self.entries, offset_u32(offset)), ..self }
    }

    /// With the entries of `sub` behind its own: their offsets count from
    /// `offset`, their files are those that `remap` names.
    pub open spec fn spliced(
        self,
        sub: Seq<LineMapEntry>,
        offset: usize,
        remap: Seq<u32>,
    ) -> LineMapV {
        LineMapV { entries: self.entries + moved(sub, offset_u32(offset), remap), ..self }
    }
}

pub open spec fn entries_before(entries: Seq<LineMapEntry>, offset: u32) -> Seq<LineMapEntry>
    decreases entries.len(),
{
    if entries.len() == 0 {
        entries
    } else if entries.last().output_offset < offset {
        entries_before(entries.drop_last(), offset).push(entries.last())
    } else {
        entries_before(entries.drop_last(), offset)
    }
}

pub open spec fn entries_from(entries: Seq<LineMapEntry>, offset: u32) -> Seq<LineMapEntry>
    decreases entries.len(),
{
    if entries.len() == 0 {
        entries
    } else if entries.last().output_offset >= offset {
        entries_from(entries.drop_last(), offset).push(
            LineMapEntry {
                output_offset: (entries.last().output_offset - offset) as u32,
                ..entries.last()
            },
        )
    } else {
        entries_from(entries.drop_last(), offset)
    }
}

/// The number that an index stands for; 0 for one that stands for none.
pub open spec fn remapped(remap: Seq<u32>, file: u32) -> u32 {
    if file < remap.len() {
        remap[file as int]
    } else {
        0
    }
}

pub open spec fn moved_entry(e: LineMapEntry, offset: u32, remap: Seq<u32>) -> LineMapEntry {
    LineMapEntry {
        output_offset: sat_add_u32(e.output_offset, offset),
        file: remapped(remap, e.file),
        ..e
    }
}

pub open spec fn moved(
    entries: Seq<LineMapEntry>,
    offset: u32,
    remap: Seq<u32>,
) -> Seq<LineMapEntry> {
    Seq::new(entries.len(), |i: int| moved_entry(entries[i], offset, remap))
}

/// The last entry among the first `n` that begins at `offset` or before it.
pub open spec fn entry_covering(
    entries: Seq<LineMapEntry>,
    offset: u32,
    n: int,
) -> Option<LineMapEntry>
    decreases n,
{
    if n <= 0 {
        None
    } else if entries[n - 1].output_offset <= offset {
        Some(entries[n - 1])
    } else {
        entry_covering(entries, offset, n - 1)
    }
}

impl Clone for LineMap {
    fn clone(&self) -> (r: Self)
        ensures
            r@ == self@,
    {
        let mut r = LineMap { files: clone_names(&self.files), entries: Vec::new() };
        let n = self.entries.len();
        let mut i: usize = 0;
        while i < n
            invariant
                i <= n == self.entries@.len(),
                names_view(r.files@) == names_view(self.files@),
                r.entries@ == self.entries@.take(i as int),
            decreases n - i,
        {
            r.entries.push(self.entries[i]);
            i = i + 1;
        }
        assert(r.entries@ =~= self.entries@);
        r
    }
}

impl LineMap {
    pub fn new() -> (r: LineMap)
        ensures
            r@ == LineMapV::empty(),
    {
        let r = LineMap { files: Vec::new(), entries: Vec::new() };
        assert(r@ =~= LineMapV::empty());
        r
    }

    /// The index of a file, which is added if it is new.
    pub fn intern_file(&mut self, path: &str) -> (r: u32)
        ensures
            final(self)@ == old(self)@.interned(path@),
            r == final(self)@.index(path@),
    {
        let i = find_name(&self.files, path);
        if i == self.files.len() {
            let ghost before = names_view(self.files@);
            push_name(&mut self.files, owned(path));
            proof {
                position_of_pushed(before, path@, 0);
            }
        }
        i as u32
    }

    /// The indices of several files, which are added if they are new.
    pub fn intern_files(&mut self, paths: &Vec<String>) -> (r: Vec<u32>)
        ensures
            final(self)@ == old(self)@.interned_all(names_view(paths@)),
            r@ == old(self)@.indices(names_view(paths@)),
    {
        let ghost start = self@;
        let ghost names = names_view(paths@);
        let mut out: Vec<u32> = Vec::new();
        let mut i: usize = 0;
        assert(names.take(0) =~= Seq::<Seq<char>>::empty());
        while i < paths.len()
            invariant
                i <= paths@.len(),
                names == names_view(paths@),
                self@ == start.interned_all(names.take(i as int)),
                out@.len() == i,
                forall|j: int| 0 <= j < i ==> out@[j] == #[trigger] start.indices(names)[j],
            decreases paths@.len() - i,
        {
            let k = self.intern_file(paths[i].as_str());
            out.push(k);
            proof {
                assert(names.take(i + 1).drop_last() =~= names.take(i as int));
                assert(names.take(i + 1).last() == names[i as int]);
            }
            i = i + 1;
        }
        assert(names.take(i as int) =~= names);
        assert(out@ =~= start.indices(names));
        out
    }

    pub fn push(&mut self, offset: usize, file: u32, line: u32, col: u32)
        ensures
            final(self)@ == old(self)@.pushed(offset, file, line, col),
    {
        self.entries.push(LineMapEntry { output_offset: to_offset(offset), file, line, col });
    }

    /// What begins at `offset` or behind it, counted from there.
    pub fn slice_from(&self, offset: usize) -> (r: LineMap)
        ensures
            r@ == self@.sliced(offset),
    {
        let o = to_offset(offset);
        let mut out: Vec<LineMapEntry> = Vec::new();
        let mut i: usize = 0;
        while i < self.entries.len()
            invariant
                i <= self.entries@.len(),
                o == offset_u32(offset),
                out@ == entries_from(self.entries@.take(i as int), o),
            decreases self.entries@.len() - i,
        {
            let e = self.entries[i];
            assert(self.entries@.take(i + 1).drop_last() =~= self.entries@.take(i as int));
            if e.output_offset >= o {
                out.push(LineMapEntry { output_offset: e.output_offset - o, ..e });
            }
            i = i + 1;
        }
        assert(self.entries@.take(i as int) =~= self.entries@);
        LineMap { files: clone_names(&self.files), entries: out }
    }

    /// Forgets what begins at `offset` or behind it.
    pub fn truncate_at(&mut self, offset: usize)
        ensures
            final(self)@ == old(self)@.truncated(offset),
    {
        let o = to_offset(offset);
        let mut out: Vec<LineMapEntry> = Vec::new();
        let mut i: usize = 0;
        while i < self.entries.len()
            invariant
                i <= self.entries@.len(),
                o == offset_u32(offset),
                out@ == entries_before(self.entries@.take(i as int), o),
                self@ == old(self)@,
            decreases self.entries@.len() - i,
        {
            let e = self.entries[i];
            assert(self.entries@.take(i + 1).drop_last() =~= self.entries@.take(i as int));
            if e.output_offset < o {
                out.push(e);
            }
            i = i + 1;
        }
        assert(self.entries@.take(i as int) =~= self.entries@);
        self.entries = out;
    }

    /// Appends the entries of another map: their offsets count from
    /// `offset`, their files are those that `remap` names.
    pub fn splice(&mut self, sub: &LineMap, offset: usize, remap: &Vec<u32>)
        ensures
            final(self)@ == old(self)@.spliced(sub@.entries, offset, remap@),
    {
        let o = to_offset(offset);
        let ghost start = self.entries@;
        let ghost all = moved(sub.entries@, o, remap@);
        let mut i: usize = 0;
        while i < sub.entries.len()
            invariant
                i <= sub.entries@.len(),
                o == offset_u32(offset),
                all == moved(sub.entries@, o, remap@),
                self.entries@ == start + all.take(i as int),
                names_view(self.files@) == names_view(old(self).files@),
            decreases sub.entries@.len() - i,
        {
            let e = sub.entries[i];
            let k = e.file as usize;
            let file = if k < remap.len() {
                remap[k]
            } else {
                0
            };
            self.entries.push(
                LineMapEntry { output_offset: add_u32(e.output_offset, o), file, ..e },
            );
            assert(self.entries@ =~= start + all.take(i + 1));
            i = i + 1;
        }
        assert(all.take(i as int) =~= all);
    }

    /// Where the byte at `offset` comes from.
    pub fn lookup(&self, offset: u32) -> (r: Option<LineMapEntry>)
        ensures
            r == entry_covering(self@.entries, offset, self@.entries.len() as int),
    {
        let mut i: usize = self.entries.len();
        while i > 0
            invariant
                i <= self.entries@.len(),
                entry_covering(self.entries@, offset, i as int) == entry_covering(
                    self.entries@,
                    offset,
                    self.entries@.len() as int,
                ),
            decreases i,
        {
            let e = self.entries[i - 1];
            if e.output_offset <= offset {
                return Some(e);
            }
            i = i - 1;
        }
        None
    }

    /// The path of a file of the map.
    pub fn path_of(&self, file: u32) -> (r: Option<&String>)
        ensures
            match r {
                Some(p) => file < self@.files.len() && p@ == self@.files[file as int],
                None => file >= self@.files.len(),
            },
    {
        let i = file as usize;
        if i < self.files.len() {
            Some(&self.files[i])
        } else {
            None
        }
    }
}

proof fn position_of_pushed(names: Seq<Seq<char>>, name: Seq<char>, i: int)
    requires
        0 <= i <= names.len(),
        !names.contains(name),
    ensures
        position_from(names.push(name), name, i) == names.len(),
        position_from(names, name, i) == names.len(),
    decreases names.len() - i,
{
    if i < names.len() {
        assert(names[i] != name);
        position_of_pushed(names, name, i + 1);
    }
}

} // verus!
