//! Putting together what a header came to, for the cache.

use crate::preproc::line_map::{LineMap, LineMapEntry, LineMapV};
use crate::preproc::state::{
    add_usize, byte_count, push_chars, skips_view, OutPos, PreprocessorState, Skip, SkipV, StateV,
};
use crate::text::{
    add_name, add_names, byte_len, byte_len_concat, chars_of, contains_name, names_view, sat_usize,
    with_name, with_names,
};
use vstd::prelude::*;

verus! {

broadcast use crate::text::take_push;

/// A part of the output.
pub open spec fn out_slice(out: Seq<char>, from: int, to: int) -> Seq<char> {
    if 0 <= from <= to <= out.len() {
        out.subrange(from, to)
    } else {
        Seq::empty()
    }
}

/// How many entries from the first on begin before `len`.
pub open spec fn covered(entries: Seq<LineMapEntry>, len: usize, i: int) -> int
    decreases entries.len() - i,
{
    if 0 <= i < entries.len() && entries[i].output_offset < len {
        covered(entries, len, i + 1)
    } else {
        i
    }
}

/// `a - b`, at least 0.
pub open spec fn sat_minus(a: usize, b: usize) -> usize {
    if a > b {
        (a - b) as usize
    } else {
        0
    }
}

/// What has been put together.
#[verifier::ext_equal]
pub struct ComposedV {
    pub text: Seq<char>,
    pub line_map: LineMapV,
    /// Files that come with embedded expansions.
    pub files: Seq<Seq<char>>,
    /// How far the output has been used.
    pub live: OutPos,
    /// Headers embedded, or tried, so far.
    pub embedded: Seq<Seq<char>>,
}

impl ComposedV {
    pub open spec fn start(at: OutPos) -> ComposedV {
        ComposedV {
            text: Seq::empty(),
            line_map: LineMapV::empty(),
            files: Seq::empty(),
            live: at,
            embedded: Seq::empty(),
        }
    }

    /// With the output up to `to` behind it.
    pub open spec fn with_live(self, out: Seq<char>, map: LineMapV, to: OutPos) -> ComposedV {
        if self.live.chars >= to.chars {
            ComposedV { live: to, ..self }
        } else {
            let sub = map.sliced(self.live.bytes);
            let n = covered(sub.entries, sat_minus(to.bytes, self.live.bytes), 0);
            ComposedV {
                text: self.text + out_slice(out, self.live.chars as int, to.chars as int),
                line_map: self.line_map.interned_all(sub.files).spliced(
                    sub.entries.take(n),
                    sat_usize(byte_len(self.text) as int),
                    self.line_map.indices(sub.files),
                ),
                live: to,
                ..self
            }
        }
    }

    /// With the expansion of a header behind it, unless it is there already
    /// or becomes too long.
    pub open spec fn with_expansion(self, st: StateV, path: Seq<char>) -> ComposedV {
        let tried = ComposedV { embedded: with_name(self.embedded, path), ..self };
        if self.embedded.contains(path) {
            self
        } else {
            match st.expansion(path) {
                Some(e) => if sat_usize((byte_len(self.text) + byte_len(e.text)) as int)
                    > st.cfg.max_bytes {
                    tried
                } else {
                    ComposedV {
                        text: self.text + e.text,
                        line_map: if st.cfg.track {
                            self.line_map.interned_all(e.line_map.files).spliced(
                                e.line_map.entries,
                                sat_usize(byte_len(self.text) as int),
                                self.line_map.indices(e.line_map.files),
                            )
                        } else {
                            self.line_map
                        },
                        files: with_name(with_names(self.files, e.files), path),
                        ..tried
                    }
                },
                None => tried,
            }
        }
    }
}

/// The place that is not before `low` and, if that leaves it a choice, not
/// behind `high`.
pub open spec fn clamp(at: OutPos, low: OutPos, high: OutPos) -> OutPos {
    let capped = if at.chars > high.chars {
        high
    } else {
        at
    };
    if capped.chars < low.chars {
        low
    } else {
        capped
    }
}

impl StateV {
    /// The output between two places, with the expansion of each of the
    /// first `n` skipped headers where it was skipped.
    pub open spec fn composed_upto(
        self,
        start: OutPos,
        end: OutPos,
        skips: Seq<SkipV>,
        n: int,
    ) -> ComposedV
        decreases n,
    {
        if n <= 0 {
            ComposedV::start(start)
        } else {
            let before = self.composed_upto(start, end, skips, n - 1);
            let at = clamp(skips[n - 1].at, before.live, end);
            before.with_live(self.out, self.line_map, at).with_expansion(self, skips[n - 1].path)
        }
    }

    /// The output between two places, with the expansion of each skipped
    /// header where it was skipped.
    pub open spec fn composed(self, start: OutPos, end: OutPos, skips: Seq<SkipV>) -> ComposedV {
        if skips.len() == 0 {
            self.raw(start, end)
        } else {
            self.composed_upto(start, end, skips, skips.len() as int).with_live(
                self.out,
                self.line_map,
                end,
            )
        }
    }

    /// The output between two places as it is.
    pub open spec fn raw(self, start: OutPos, end: OutPos) -> ComposedV {
        ComposedV {
            text: out_slice(self.out, start.chars as int, end.chars as int),
            line_map: self.line_map.sliced(start.bytes),
            ..ComposedV::start(end)
        }
    }
}

/// What has been put together.
pub struct Composed {
    pub text: Vec<char>,
    /// How many bytes the text takes.
    pub text_len: usize,
    pub line_map: LineMap,
    pub files: Vec<String>,
    pub live: OutPos,
    pub embedded: Vec<String>,
}

impl View for Composed {
    type V = ComposedV;

    open spec fn view(&self) -> ComposedV {
        ComposedV {
            text: self.text@,
            line_map: self.line_map@,
            files: names_view(self.files@),
            live: self.live,
            embedded: names_view(self.embedded@),
        }
    }
}

fn slice_chars(out: &Vec<char>, from: usize, to: usize) -> (r: Vec<char>)
    ensures
        r@ == out_slice(out@, from as int, to as int),
{
    let mut r: Vec<char> = Vec::new();
    if from > to || to > out.len() {
        assert(r@ =~= Seq::<char>::empty());
        return r;
    }
    let mut i: usize = from;
    while i < to
        invariant
            from <= i <= to <= out@.len(),
            r@ == out@.subrange(from as int, i as int),
        decreases to - i,
    {
        r.push(out[i]);
        assert(r@ =~= out@.subrange(from as int, i + 1));
        i = i + 1;
    }
    r
}

impl Composed {
    pub open spec fn wf(&self) -> bool {
        self.text_len == sat_usize(byte_len(self.text@) as int)
    }

    fn start(at: OutPos) -> (r: Composed)
        ensures
            r.wf(),
            r@ == ComposedV::start(at),
    {
        let r = Composed {
            text: Vec::new(),
            text_len: 0,
            line_map: LineMap::new(),
            files: Vec::new(),
            live: at,
            embedded: Vec::new(),
        };
        assert(r@ =~= ComposedV::start(at));
        r
    }

    fn push_text(&mut self, more: &Vec<char>)
        requires
            old(self).wf(),
        ensures
            final(self).wf(),
            final(self)@ == (ComposedV { text: old(self)@.text + more@, ..old(self)@ }),
    {
        proof {
            byte_len_concat(self.text@, more@);
        }
        let n = byte_count(more);
        push_chars(&mut self.text, more);
        self.text_len = add_usize(self.text_len, n);
    }

    fn append_live_chunk(&mut self, st: &PreprocessorState, to: OutPos)
        requires
            old(self).wf(),
        ensures
            final(self).wf(),
            final(self)@ == old(self)@.with_live(st@.out, st@.line_map, to),
    {
        if self.live.chars >= to.chars {
            self.live = to;
            return ;
        }
        let dest_off = self.text_len;
        let chunk = slice_chars(&st.output, self.live.chars, to.chars);
        let chunk_len: usize = if to.bytes > self.live.bytes {
            to.bytes - self.live.bytes
        } else {
            0
        };
        let mut sub = st.line_map.slice_from(self.live.bytes);
        let mut n: usize = 0;
        while n < sub.entries.len() && (sub.entries[n].output_offset as usize) < chunk_len
            invariant
                n <= sub.entries@.len(),
                covered(sub.entries@, chunk_len, n as int) == covered(sub.entries@, chunk_len, 0),
            decreases sub.entries@.len() - n,
        {
            n = n + 1;
        }
        let ghost full = sub@;
        sub.entries.truncate(n);
        assert(sub.entries@ =~= full.entries.take(n as int));
        let remap = self.line_map.intern_files(&sub.files);
        self.line_map.splice(&sub, dest_off, &remap);
        self.push_text(&chunk);
        self.live = to;
    }

    fn embed(&mut self, st: &PreprocessorState, path: &str)
        requires
            old(self).wf(),
        ensures
            final(self).wf(),
            final(self)@ == old(self)@.with_expansion(st@, path@),
    {
        if contains_name(&self.embedded, path) {
            return ;
        }
        add_name(&mut self.embedded, path);
        let entry = match st.cached_expansion(path) {
            Some(e) => e,
            None => {
                return ;
            },
        };
        let text = chars_of(entry.text.as_str());
        if add_usize(self.text_len, byte_count(&text)) > st.opts.max_output_bytes {
            return ;
        }
        add_names(&mut self.files, &entry.files);
        add_name(&mut self.files, path);
        if st.opts.track_line_map {
            let remap = self.line_map.intern_files(&entry.line_map.files);
            let at = self.text_len;
            self.line_map.splice(&entry.line_map, at, &remap);
        }
        self.push_text(&text);
    }
}

impl<'a> PreprocessorState<'a> {
    /// The output from `start` to `end` as it is.
    pub fn raw_cache_text(&self, start: OutPos, end: OutPos) -> (r: Composed)
        ensures
            r.wf(),
            r@ == self@.raw(start, end),
    {
        let mut r = Composed::start(end);
        let text = slice_chars(&self.output, start.chars, end.chars);
        r.push_text(&text);
        r.line_map = self.line_map.slice_from(start.bytes);
        assert(Seq::<char>::empty() + text@ =~= text@);
        r
    }

    /// The output from `start` to `end`, with the expansion of each skipped
    /// header where it was skipped.
    pub fn compose_cache_text(&self, start: OutPos, end: OutPos, skips: &Vec<Skip>) -> (r: Composed)
        ensures
            r.wf(),
            r@ == self@.composed(start, end, skips_view(skips@)),
    {
        if skips.len() == 0 {
            return self.raw_cache_text(start, end);
        }
        let ghost all = skips_view(skips@);
        let mut r = Composed::start(start);
        let mut i: usize = 0;
        while i < skips.len()
            invariant
                i <= skips@.len(),
                all == skips_view(skips@),
                r.wf(),
                r@ == self@.composed_upto(start, end, all, i as int),
            decreases skips@.len() - i,
        {
            assert(all[i as int] == skips@[i as int]@);
            let mut at = skips[i].at;
            if at.chars > end.chars {
                at = end;
            }
            if at.chars < r.live.chars {
                at = r.live;
            }
            r.append_live_chunk(self, at);
            r.embed(self, skips[i].path.as_str());
            i = i + 1;
        }
        r.append_live_chunk(self, end);
        r
    }
}

} // verus!
