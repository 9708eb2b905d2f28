//! Types and files of a source are types and files of the program.

use crate::index::merge::UnitV;
use crate::ir::ids::FileId;
use crate::ir::program::ProgramV;
use crate::ir::symbol::SymbolsV;
use crate::ir::types::{position_of_type, stands_for, tag_of, DescV, LayoutV, TableV, TypeV};
use crate::paths::tidied;
use vstd::prelude::*;

verus! {

/// Whether two types are one: structures and unions by their tags, any others if
/// they are the same.
pub open spec fn same_type(a: DescV, b: DescV) -> bool {
    match tag_of(a) {
        Some(t) => tag_of(b) == Some(t),
        None => b == a,
    }
}

/// Whether every entry of a table stays what it is.
pub open spec fn entries_stay(a: TableV, b: TableV) -> bool {
    &&& a.types.len() <= b.types.len()
    &&& forall|j: int|
        0 <= j < a.types.len() ==> same_type(a.types[j].desc, (#[trigger] b.types[j]).desc)
}

proof fn stay_trans(a: TableV, b: TableV, c: TableV)
    requires
        entries_stay(a, b),
        entries_stay(b, c),
    ensures
        entries_stay(a, c),
{
    assert forall|j: int| 0 <= j < a.types.len() implies same_type(
        a.types[j].desc,
        (#[trigger] c.types[j]).desc,
    ) by {
        assert(same_type(a.types[j].desc, b.types[j].desc));
    }
}

proof fn fields_stay(l: LayoutV, fields: Seq<(Seq<char>, DescV)>, n: int, overlay: bool)
    ensures
        entries_stay(l.table, l.with_fields(fields, n, overlay).table),
    decreases n,
{
    if n > 0 {
        fields_stay(l, fields, n - 1, overlay);
        let before = l.with_fields(fields, n - 1, overlay);
        stay_trans(l.table, before.table, l.with_fields(fields, n, overlay).table);
    }
}

proof fn found_stands(types: Seq<TypeV>, d: DescV, i: int)
    requires
        0 <= i <= types.len(),
    ensures
        i <= position_of_type(types, d, i) <= types.len(),
        position_of_type(types, d, i) < types.len() ==> stands_for(
            types[position_of_type(types, d, i)].desc,
            d,
        ),
    decreases types.len() - i,
{
    if i < types.len() && !stands_for(types[i].desc, d) {
        found_stands(types, d, i + 1);
    }
}

proof fn type_stays(t: TableV, d: DescV)
    ensures
        entries_stay(t.interned(d), t.with_type(d)),
        entries_stay(t, t.with_type(d)),
{
    let table = t.interned(d);
    assert(entries_stay(t, table));
    found_stands(table.types, d, 0);
    let (fields, overlay) = match d {
        DescV::Struct { name, fields } => (fields, false),
        DescV::Union { name, fields } => (fields, true),
        _ => (Seq::<(Seq<char>, DescV)>::empty(), false),
    };
    let k = position_of_type(table.types, d, 0);
    let l = LayoutV { table, fields: Seq::empty(), size: 0, align: 1 };
    fields_stay(l, fields, fields.len() as int, overlay);
    let laid = l.with_fields(fields, fields.len() as int, overlay).table;
    let b = t.with_type(d);
    if k < table.types.len() {
        assert(same_type(table.types[k].desc, d));
        assert(same_type(laid.types[k].desc, d)) by {
            assert(same_type(table.types[k].desc, laid.types[k].desc));
        }
    }
    assert forall|j: int| 0 <= j < table.types.len() implies same_type(
        table.types[j].desc,
        (#[trigger] b.types[j]).desc,
    ) by {
        assert(same_type(table.types[j].desc, laid.types[j].desc));
    }
    stay_trans(t, table, b);
}

/// Every type of a source is, under the number that it gets, the same type of the
/// program.
pub proof fn types_are_carried_over(t: TableV, types: Seq<TypeV>, i: int, n: int)
    requires
        0 <= i < n <= types.len(),
        t.with_types(types, n).types.len() < u32::MAX,
        forall|a: int, b: int|
            0 <= a < b < types.len() ==> (#[trigger] types[a]).id != (#[trigger] types[b]).id,
    ensures
        ({
            let map = t.type_map(types, n);
            &&& map.contains_key(types[i].id.0)
            &&& t.with_types(types, n).desc(map[types[i].id.0]) matches Some(e) && same_type(
                types[i].desc,
                e,
            )
        }),
    decreases n,
{
    let before = t.with_types(types, n - 1);
    let d = types[n - 1].desc;
    type_stays(before, d);
    let after = t.with_types(types, n);
    let table = before.interned(d);
    if i < n - 1 {
        types_are_carried_over(t, types, i, n - 1);
        assert(types[i].id != types[n - 1].id);
        let id = t.type_map(types, n - 1)[types[i].id.0];
        assert(same_type(before.types[id.0 as int].desc, after.types[id.0 as int].desc));
    } else {
        found_stands(before.types, d, 0);
        found_stands(table.types, d, 0);
        let k = position_of_type(table.types, d, 0);
        if position_of_type(before.types, d, 0) >= before.types.len() {
            last_stands(before, d, 0);
        }
        assert(k < table.types.len());
        assert(same_type(table.types[k].desc, after.types[k].desc));
    }
}

proof fn last_stands(t: TableV, d: DescV, i: int)
    requires
        0 <= i <= t.types.len(),
        position_of_type(t.types, d, 0) >= t.types.len(),
    ensures
        position_of_type(t.interned(d).types, d, i) < t.interned(d).types.len(),
    decreases t.types.len() - i,
{
    let u = t.interned(d);
    if i < t.types.len() {
        last_stands(t, d, i + 1);
    } else {
        assert(u.types[i].desc == d);
    }
}

/// Whether every path that is known leads to a file with a path of the same
/// parts.
pub open spec fn paths_lead_to_files(s: SymbolsV) -> bool {
    forall|t: Seq<char>| #[trigger]
        s.paths.contains_key(t) ==> s.paths[t] < s.files.len() && tidied(
            s.files[s.paths[t] as int].1,
        ) == t
}

/// A path that is added leads to a file with a path of the same parts, and all
/// others lead where they led.
pub proof fn paths_lead_to_their_files(s: SymbolsV, path: Seq<char>)
    requires
        paths_lead_to_files(s),
        s.files.len() < u32::MAX,
    ensures
        ({
            let u = s.with_path(path);
            &&& paths_lead_to_files(u)
            &&& u.file_of(path).0 < u.files.len()
            &&& tidied(u.files[u.file_of(path).0 as int].1) == tidied(path)
            &&& s.files.len() <= u.files.len() <= s.files.len() + 1
            &&& forall|i: int| 0 <= i < s.files.len() ==> #[trigger] u.files[i] == s.files[i]
        }),
{
    let u = s.with_path(path);
    assert(s.paths.contains_key(tidied(path)) || !s.paths.contains_key(tidied(path)));
    assert forall|t: Seq<char>| #[trigger] u.paths.contains_key(t) implies u.paths[t]
        < u.files.len() && tidied(u.files[u.paths[t] as int].1) == t by {
        if t != tidied(path) || s.knows_path(path) {
            assert(s.paths.contains_key(t));
        }
    }
    assert(u.paths.contains_key(tidied(path)));
}

/// The files of paths are files with paths of the same parts.
pub proof fn files_are_carried_over(s: SymbolsV, paths: Seq<Seq<char>>, i: int, n: int)
    requires
        paths_lead_to_files(s),
        0 <= i < n <= paths.len(),
        s.files.len() + paths.len() < u32::MAX,
    ensures
        ({
            let u = s.with_paths(paths, n);
            let f = s.files_of(paths, n)[i];
            &&& s.files_of(paths, n).len() == n
            &&& f.0 < u.files.len()
            &&& tidied(u.files[f.0 as int].1) == tidied(paths[i])
        }),
    decreases n,
{
    paths_stay(s, paths, n - 1);
    let before = s.with_paths(paths, n - 1);
    paths_lead_to_their_files(before, paths[n - 1]);
    files_are_counted(s, paths, n - 1);
    if i < n - 1 {
        files_are_carried_over(s, paths, i, n - 1);
        let f = s.files_of(paths, n - 1)[i];
        assert(s.with_paths(paths, n).files[f.0 as int] == before.files[f.0 as int]);
    }
}

proof fn files_are_counted(s: SymbolsV, paths: Seq<Seq<char>>, n: int)
    requires
        0 <= n,
    ensures
        s.files_of(paths, n).len() == n,
    decreases n,
{
    if n > 0 {
        files_are_counted(s, paths, n - 1);
    }
}

proof fn paths_stay(s: SymbolsV, paths: Seq<Seq<char>>, n: int)
    requires
        paths_lead_to_files(s),
        0 <= n <= paths.len(),
        s.files.len() + paths.len() < u32::MAX,
    ensures
        paths_lead_to_files(s.with_paths(paths, n)),
        s.files.len() <= s.with_paths(paths, n).files.len() <= s.files.len() + n,
    decreases n,
{
    if n > 0 {
        paths_stay(s, paths, n - 1);
        paths_lead_to_their_files(s.with_paths(paths, n - 1), paths[n - 1]);
    }
}

/// What a merge knows of a source: its types are the same types of the program,
/// and its files are files with paths of the same parts.
pub proof fn merges_carry_types_and_files(p: ProgramV, unit: UnitV, t: int, f: int)
    requires
        0 <= t < unit.types.types.len(),
        0 <= f < unit.files.len(),
        p.types.with_types(unit.types.types, unit.types.types.len() as int).types.len() < u32::MAX,
        forall|a: int, b: int|
            0 <= a < b < unit.types.types.len() ==> (#[trigger] unit.types.types[a]).id != (
            #[trigger] unit.types.types[b]).id,
        paths_lead_to_files(p.symbols),
        p.symbols.files.len() + unit.files.len() < u32::MAX,
    ensures
        ({
            let m = p.merging(unit);
            let ty = m.ty(unit.types.types[t].id);
            let file = m.file(FileId(f as u32));
            &&& m.program.types.desc(ty) matches Some(e) && same_type(
                unit.types.types[t].desc,
                e,
            )
            &&& tidied(
                p.symbols.with_paths(unit.files, unit.files.len() as int).files[file.0 as int].1,
            ) == tidied(unit.files[f])
        }),
{
    let n = unit.types.types.len() as int;
    types_are_carried_over(p.types, unit.types.types, t, n);
    aliases_stay(p.types.with_types(unit.types.types, n), unit.types.aliases, unit.types.aliases.len() as int);
    files_are_carried_over(p.symbols, unit.files, f, unit.files.len() as int);
}

proof fn aliases_stay(t: TableV, aliases: Seq<(Seq<char>, DescV)>, n: int)
    ensures
        t.with_aliases(aliases, n).types == t.types,
    decreases n,
{
    if n > 0 {
        aliases_stay(t, aliases, n - 1);
    }
}

} // verus!
