//! Where nodes were written, and which variables a name can mean.

use crate::index::lower::state::LowerV;
use crate::index::syntax::NodeV;
use crate::ir::symbol::{StorageClass, VarV};
use crate::preproc::line_map::{entry_covering, offset_u32, LineMapEntry};
use vstd::prelude::*;

verus! {

/// Whether the entry at `k` is that of a node: the last that begins where the
/// node does or before.
pub open spec fn is_entry_of(entries: Seq<LineMapEntry>, k: int, n: NodeV) -> bool {
    &&& 0 <= k < entries.len()
    &&& entries[k].output_offset <= offset_u32(n.start)
    &&& forall|j: int|
        k < j < entries.len() ==> (#[trigger] entries[j]).output_offset > offset_u32(n.start)
}

proof fn entry_is_found(entries: Seq<LineMapEntry>, k: int, n: NodeV, m: int)
    requires
        is_entry_of(entries, k, n),
        k < m <= entries.len(),
    ensures
        entry_covering(entries, offset_u32(n.start), m) == Some(entries[k]),
    decreases m,
{
    if k < m - 1 {
        assert(entries[m - 1].output_offset > offset_u32(n.start));
        entry_is_found(entries, k, n, m - 1);
    }
}

/// A node stands where its text was written: on the line and column of its entry,
/// in the file of the entry, which is the file that is lowered where the two have
/// one path.
pub proof fn nodes_stand_where_they_were_written(s: LowerV, n: NodeV, k: int)
    requires
        is_entry_of(s.lines.entries, k, n),
        s.lines.entries[k].file < s.lines.files.len(),
    ensures
        ({
            let e = s.lines.entries[k];
            let origin = s.lines.files[e.file as int];
            let (t, span) = s.placed(n);
            &&& span.line == e.line
            &&& span.col == e.col
            &&& origin == s.primary ==> span.file == s.file && t == s
            &&& origin != s.primary ==> t.p.symbols.knows_path(origin) && span.file
                == t.p.symbols.file_of(origin)
        }),
{
    entry_is_found(s.lines.entries, k, n, s.lines.entries.len() as int);
}

/// Whether a variable that outlives a call can be seen: it is one of the file, or
/// one of the function.
pub open spec fn is_seen(s: LowerV, v: VarV) -> bool {
    ||| v.storage == StorageClass::FileStatic && v.span.file == s.file
    ||| v.storage == StorageClass::FnStatic && v.fn_id == s.current_fn
}

proof fn static_is_seen(s: LowerV, name: Seq<char>, i: int)
    requires
        0 <= i <= s.p.symbols.variables.len(),
    ensures
        match s.static_var(name, i) {
            Some(v) => exists|k: int|
                i <= k < s.p.symbols.variables.len() && (#[trigger] s.p.symbols.variables[k]).id
                    == v && s.p.symbols.variables[k].name == name && is_seen(
                    s,
                    s.p.symbols.variables[k],
                ),
            None => forall|k: int|
                i <= k < s.p.symbols.variables.len() ==> (#[trigger] s.p.symbols.variables[k]).name
                    != name || !is_seen(s, s.p.symbols.variables[k]),
        },
    decreases s.p.symbols.variables.len() - i,
{
    let vars = s.p.symbols.variables;
    if i < vars.len() {
        if vars[i].name == name && is_seen(s, vars[i]) {
            assert(vars[i].id == vars[i].id);
        } else {
            static_is_seen(s, name, i + 1);
            if let Some(v) = s.static_var(name, i + 1) {
                let k = choose|k: int|
                    i + 1 <= k < vars.len() && (#[trigger] vars[k]).id == v && vars[k].name == name
                        && is_seen(s, vars[k]);
                assert(vars[k].id == v);
            }
        }
    }
}

/// A name that is no variable of the function and none of the program means a
/// variable of that name that lasts and can be seen, where there is one, and
/// nothing where there is none.
pub proof fn names_mean_what_can_be_seen(s: LowerV, name: Seq<char>)
    requires
        !(s.current_fn is Some && s.locals.contains_key(name)),
        !s.p.symbols.globals.contains_key(name),
    ensures
        match s.lookup(name) {
            Some(v) => exists|k: int|
                0 <= k < s.p.symbols.variables.len() && (#[trigger] s.p.symbols.variables[k]).id
                    == v && s.p.symbols.variables[k].name == name && is_seen(
                    s,
                    s.p.symbols.variables[k],
                ),
            None => forall|k: int|
                0 <= k < s.p.symbols.variables.len() ==> (#[trigger] s.p.symbols.variables[k]).name
                    != name || !is_seen(s, s.p.symbols.variables[k]),
        },
{
    static_is_seen(s, name, 0);
}

} // verus!
