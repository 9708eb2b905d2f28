//! What names mean, and what they may mean.

use crate::ir::ids::{FileId, FnId};
use crate::ir::symbol::{
    agreeing_is_one, declared_is_there, fn_position, no_symbols, position_found, with_fn, with_fns,
    FnV, Linkage, SymbolsV,
};
use vstd::prelude::*;

verus! {

/// Whether an identifier is that of an external function of a name.
pub open spec fn is_external(s: SymbolsV, id: FnId, name: Seq<char>) -> bool {
    s.function(id) matches Some(f) && f.name == name && f.linkage == Linkage::External
}

/// Whether an identifier is that of a function of a name that only a file can
/// see.
pub open spec fn is_internal(s: SymbolsV, id: FnId, name: Seq<char>, file: FileId) -> bool {
    s.function(id) matches Some(f) && f.name == name && f.linkage == Linkage::Internal && f.file
        == file
}

/// Whether a name has a meaning where it has external functions, and it is one
/// of them.
pub open spec fn names_agree(s: SymbolsV) -> bool {
    forall|name: Seq<char>|
        match #[trigger] s.resolve(name) {
            Some(id) => s.external(name).contains(id),
            None => s.external(name).len() == 0,
        }
}

/// Whether names lead to functions of those names: external ones, and what only
/// a file can see to functions of that file.
pub open spec fn well_named(s: SymbolsV) -> bool {
    &&& names_agree(s)
    &&& forall|name: Seq<char>, i: int|
        0 <= i < s.external(name).len() ==> is_external(s, #[trigger] s.external(name)[i], name)
    &&& forall|name: Seq<char>, file: FileId|
        match #[trigger] s.in_file(name, file) {
            Some(id) => is_internal(s, id, name, file),
            None => true,
        }
}

/// Where functions keep their identifiers and others follow them, each is
/// still found at its position.
proof fn position_stays(a: Seq<FnV>, b: Seq<FnV>, id: FnId, i: int)
    requires
        0 <= i <= a.len() <= b.len(),
        forall|j: int| 0 <= j < a.len() ==> (#[trigger] b[j]).id == a[j].id,
    ensures
        fn_position(a, id, i) < a.len() ==> fn_position(b, id, i) == fn_position(a, id, i),
    decreases a.len() - i,
{
    if i < a.len() {
        assert(b[i].id == a[i].id);
        if a[i].id != id {
            position_stays(a, b, id, i + 1);
        }
    }
}

/// An identifier that no function has is found at the end, once a function has
/// it there.
proof fn last_is_found(fns: Seq<FnV>, f: FnV, i: int)
    requires
        0 <= i <= fns.len(),
        forall|j: int| 0 <= j < fns.len() ==> (#[trigger] fns[j]).id != f.id,
    ensures
        fn_position(fns.push(f), f.id, i) == fns.len(),
    decreases fns.len() - i,
{
    if i < fns.len() {
        assert(fns.push(f)[i] == fns[i]);
        last_is_found(fns, f, i + 1);
    }
}

/// No symbols are well named.
pub proof fn no_symbols_are_well_named()
    ensures
        well_named(no_symbols()),
{
}

/// With the same functions under the same names, and others that no name leads
/// to.
pub proof fn well_named_same(a: SymbolsV, b: SymbolsV)
    requires
        well_named(a),
        a.functions.len() <= b.functions.len(),
        forall|i: int| 0 <= i < a.functions.len() ==> #[trigger] b.functions[i] == a.functions[i],
        b.fn_by_name == a.fn_by_name,
        b.externals == a.externals,
        b.scopes == a.scopes,
    ensures
        well_named(b),
{
    assert forall|name: Seq<char>|
        match #[trigger] b.resolve(name) {
            Some(id) => b.external(name).contains(id),
            None => b.external(name).len() == 0,
        } by {
        assert(b.resolve(name) == a.resolve(name));
        assert(b.external(name) == a.external(name));
    }
    assert forall|name: Seq<char>, i: int| 0 <= i < b.external(name).len() implies is_external(
        b,
        #[trigger] b.external(name)[i],
        name,
    ) by {
        assert(b.external(name) == a.external(name));
        assert(is_external(a, a.external(name)[i], name));
        position_found(a.functions, a.external(name)[i], 0);
        position_stays(a.functions, b.functions, a.external(name)[i], 0);
    }
    assert forall|name: Seq<char>, file: FileId|
        match #[trigger] b.in_file(name, file) {
            Some(id) => is_internal(b, id, name, file),
            None => true,
        } by {
        assert(b.in_file(name, file) == a.in_file(name, file));
        if let Some(id) = a.in_file(name, file) {
            position_found(a.functions, id, 0);
            position_stays(a.functions, b.functions, id, 0);
        }
    }
}

/// Whatever function comes, the meaning of a name stays one of its external
/// functions.
pub proof fn functions_leave_names_agreed(s: SymbolsV, func: FnV)
    requires
        names_agree(s),
    ensures
        names_agree(s.with_function(func).0),
{
    let t = s.with_function(func).0;
    agreeing_is_one(s, s.external(func.name), func, 0);
    assert forall|name: Seq<char>|
        match #[trigger] t.resolve(name) {
            Some(id) => t.external(name).contains(id),
            None => t.external(name).len() == 0,
        } by {
        match s.resolve(name) {
            Some(id) => {
                assert(s.external(name).contains(id));
            },
            None => {},
        }
        if s.declared(func) is None && func.linkage == Linkage::External && name == func.name {
            assert(t.external(name)[s.external(name).len() as int] == func.id);
        }
    }
}

/// A header that contributes to a file leaves names as they are.
pub proof fn headers_leave_names(s: SymbolsV, tu: FileId, header: FileId)
    ensures
        names_agree(s) ==> names_agree(s.with_header(tu, header)),
        well_named(s) ==> well_named(s.with_header(tu, header)),
{
    let t = s.with_header(tu, header);
    if names_agree(s) {
        assert forall|name: Seq<char>|
            match #[trigger] t.resolve(name) {
                Some(id) => t.external(name).contains(id),
                None => t.external(name).len() == 0,
            } by {
            assert(t.resolve(name) == s.resolve(name));
            assert(t.external(name) == s.external(name));
        }
    }
    if well_named(s) {
        well_named_same(s, t);
    }
}

proof fn declared_has_the_name(s: SymbolsV, func: FnV)
    requires
        well_named(s),
    ensures
        s.declared(func) matches Some(id) ==> s.external(func.name).contains(id) && is_external(
            s,
            id,
            func.name,
        ),
{
    if let Some(id) = s.declared(func) {
        agreeing_is_one(s, s.external(func.name), func, 0);
        assert(s.resolve(func.name) is Some);
        assert(s.external(func.name).contains(id));
        let k = choose|k: int|
            0 <= k < s.external(func.name).len() && s.external(func.name)[k] == id;
        assert(is_external(s, s.external(func.name)[k], func.name));
    }
}

/// One more declaration of a function that is there leaves names as they are.
proof fn merged_stay_named(s: SymbolsV, func: FnV, id: FnId)
    requires
        well_named(s),
        s.declared(func) == Some(id),
    ensures
        well_named(s.with_function(func).0),
{
    let t = s.with_function(func).0;
    let k = fn_position(s.functions, id, 0);
    declared_has_the_name(s, func);
    declared_is_there(s, func);
    assert forall|x: FnId| s.function(x) is Some implies #[trigger] t.function(x) is Some && t.function(
        x,
    )->0.name == (s.function(x)->0).name && t.function(x)->0.linkage == (s.function(
        x,
    )->0).linkage && (x != id ==> t.function(x) == s.function(x)) by {
        position_found(s.functions, x, 0);
        position_stays(s.functions, t.functions, x, 0);
        if x != id {
            assert(fn_position(s.functions, x, 0) != k);
        }
    }
    assert(with_fn(s.external(func.name), id) == s.external(func.name));
    assert forall|name: Seq<char>| #[trigger] t.external(name) == s.external(name) by {}
    assert forall|name: Seq<char>|
        match #[trigger] t.resolve(name) {
            Some(x) => t.external(name).contains(x),
            None => t.external(name).len() == 0,
        } by {
        assert(t.resolve(name) == s.resolve(name));
        assert(t.external(name) == s.external(name));
    }
    assert forall|name: Seq<char>, i: int| 0 <= i < t.external(name).len() implies is_external(
        t,
        #[trigger] t.external(name)[i],
        name,
    ) by {
        assert(t.external(name) == s.external(name));
        assert(is_external(s, s.external(name)[i], name));
        assert(t.function(s.external(name)[i]) is Some);
    }
    assert forall|name: Seq<char>, file: FileId|
        match #[trigger] t.in_file(name, file) {
            Some(x) => is_internal(t, x, name, file),
            None => true,
        } by {
        assert(t.in_file(name, file) == s.in_file(name, file));
        if let Some(x) = s.in_file(name, file) {
            assert(is_internal(s, x, name, file));
            assert(x != id);
            assert(t.function(x) is Some);
        }
    }
}

/// A function under a number of its own leaves symbols well named.
pub proof fn functions_come_under_their_names(s: SymbolsV, func: FnV)
    requires
        well_named(s),
        forall|i: int| 0 <= i < s.functions.len() ==> (#[trigger] s.functions[i]).id != func.id,
    ensures
        well_named(s.with_function(func).0),
{
    let t = s.with_function(func).0;
    match s.declared(func) {
        Some(id) => {
            merged_stay_named(s, func, id);
        },
        None => {
            last_is_found(s.functions, func, 0);
            assert(t.function(func.id) == Some(func));
            assert forall|x: FnId| s.function(x) is Some implies #[trigger] t.function(x)
                == s.function(x) by {
                position_found(s.functions, x, 0);
                position_stays(s.functions, t.functions, x, 0);
            }
            assert forall|name: Seq<char>|
                match #[trigger] t.resolve(name) {
                    Some(x) => t.external(name).contains(x),
                    None => t.external(name).len() == 0,
                } by {
                if func.linkage == Linkage::External && name == func.name {
                    assert(t.external(name)[s.external(name).len() as int] == func.id);
                } else {
                    assert(t.resolve(name) == s.resolve(name));
                    assert(t.external(name) == s.external(name));
                }
            }
            assert forall|name: Seq<char>, i: int|
                0 <= i < t.external(name).len() implies is_external(
                t,
                #[trigger] t.external(name)[i],
                name,
            ) by {
                if i < s.external(name).len() {
                    assert(t.external(name)[i] == s.external(name)[i]);
                    assert(is_external(s, s.external(name)[i], name));
                    assert(t.function(s.external(name)[i]) == s.function(s.external(name)[i]));
                } else {
                    assert(t.external(name)[i] == func.id);
                }
            }
            assert forall|name: Seq<char>, file: FileId|
                match #[trigger] t.in_file(name, file) {
                    Some(x) => is_internal(t, x, name, file),
                    None => true,
                } by {
                if func.linkage == Linkage::Internal && name == func.name && file == func.file {
                    assert(t.in_file(name, file) == Some(func.id));
                } else {
                    assert(t.in_file(name, file) == s.in_file(name, file));
                    if let Some(x) = s.in_file(name, file) {
                        assert(is_internal(s, x, name, file));
                        assert(t.function(x) == s.function(x));
                    }
                }
            }
        },
    }
}

proof fn with_fns_keeps(ids: Seq<FnId>, more: Seq<FnId>)
    ensures
        forall|x: FnId| ids.contains(x) ==> #[trigger] with_fns(ids, more).contains(x),
        forall|x: FnId| more.contains(x) ==> #[trigger] with_fns(ids, more).contains(x),
        ids.no_duplicates() ==> with_fns(ids, more).no_duplicates(),
    decreases more.len(),
{
    if more.len() > 0 {
        let before = with_fns(ids, more.drop_last());
        with_fns_keeps(ids, more.drop_last());
        with_fn_keeps(before, more.last());
        assert forall|x: FnId| more.contains(x) implies #[trigger] with_fns(ids, more).contains(
            x,
        ) by {
            let k = choose|k: int| 0 <= k < more.len() && more[k] == x;
            if k < more.len() - 1 {
                assert(more.drop_last()[k] == x);
                assert(before.contains(x));
            }
        }
    }
}

proof fn with_fn_keeps(ids: Seq<FnId>, id: FnId)
    ensures
        forall|x: FnId| ids.contains(x) ==> #[trigger] with_fn(ids, id).contains(x),
        with_fn(ids, id).contains(id),
        ids.no_duplicates() ==> with_fn(ids, id).no_duplicates(),
{
    if !ids.contains(id) {
        assert(ids.push(id)[ids.len() as int] == id);
        assert forall|x: FnId| ids.contains(x) implies #[trigger] ids.push(id).contains(x) by {
            let k = choose|k: int| 0 <= k < ids.len() && ids[k] == x;
            assert(ids.push(id)[k] == x);
        }
    }
}

proof fn header_candidates_steps(
    s: SymbolsV,
    out: Seq<FnId>,
    name: Seq<char>,
    headers: Seq<FileId>,
    n: int,
)
    requires
        0 <= n <= headers.len(),
        out.no_duplicates(),
    ensures
        s.header_candidates(out, name, headers, n).no_duplicates(),
        forall|x: FnId|
            out.contains(x) ==> #[trigger] s.header_candidates(out, name, headers, n).contains(x),
        forall|h: int|
            0 <= h < n && s.in_file(name, #[trigger] headers[h]) is Some
                ==> s.header_candidates(out, name, headers, n).contains(
                s.in_file(name, headers[h])->0,
            ),
    decreases n,
{
    if n > 0 {
        header_candidates_steps(s, out, name, headers, n - 1);
        match s.in_file(name, headers[n - 1]) {
            Some(id) => {
                with_fn_keeps(s.header_candidates(out, name, headers, n - 1), id);
            },
            None => {},
        }
    }
}

proof fn with_fn_begins(ids: Seq<FnId>, id: FnId)
    ensures
        ids.len() > 0 ==> with_fn(ids, id).len() > 0 && with_fn(ids, id)[0] == ids[0],
        ids.len() == 0 ==> with_fn(ids, id) == seq![id],
        forall|x: FnId| #[trigger] with_fn(ids, id).contains(x) ==> ids.contains(x) || x == id,
{
    if ids.len() == 0 {
        assert(with_fn(ids, id) =~= seq![id]);
    }
}

proof fn with_fns_begins(ids: Seq<FnId>, more: Seq<FnId>)
    ensures
        ids.len() > 0 ==> with_fns(ids, more).len() > 0 && with_fns(ids, more)[0] == ids[0],
        ids.len() == 0 && more.len() == 0 ==> with_fns(ids, more).len() == 0,
        forall|x: FnId| #[trigger]
            with_fns(ids, more).contains(x) ==> ids.contains(x) || more.contains(x),
    decreases more.len(),
{
    if more.len() > 0 {
        let before = with_fns(ids, more.drop_last());
        with_fns_begins(ids, more.drop_last());
        with_fn_begins(before, more.last());
        assert forall|x: FnId| #[trigger] with_fns(ids, more).contains(x) implies ids.contains(x)
            || more.contains(x) by {
            if before.contains(x) && !ids.contains(x) {
                let k = choose|k: int|
                    0 <= k < more.drop_last().len() && more.drop_last()[k] == x;
                assert(more[k] == x);
            } else if !before.contains(x) {
                assert(more[more.len() - 1] == x);
            }
        }
    }
}

/// The headers that have no function of the name are passed over.
proof fn headers_passed_over(s: SymbolsV, name: Seq<char>, headers: Seq<FileId>, i: int, n: int)
    requires
        0 <= i <= n <= headers.len(),
        forall|h: int| i <= h < n ==> s.in_file(name, #[trigger] headers[h]) is None,
    ensures
        s.in_headers(name, headers, i) == s.in_headers(name, headers, n),
    decreases n - i,
{
    if i < n {
        assert(s.in_file(name, headers[i]) is None);
        headers_passed_over(s, name, headers, i + 1, n);
    }
}

/// Whether an identifier is that of a function of the name that one of the
/// headers has.
pub open spec fn from_headers(s: SymbolsV, id: FnId, name: Seq<char>, headers: Seq<FileId>) -> bool {
    exists|h: int| 0 <= h < headers.len() && s.in_file(name, #[trigger] headers[h]) == Some(id)
}

proof fn header_candidates_begin(
    s: SymbolsV,
    out: Seq<FnId>,
    name: Seq<char>,
    headers: Seq<FileId>,
    n: int,
)
    requires
        0 <= n <= headers.len(),
    ensures
        ({
            let all = s.header_candidates(out, name, headers, n);
            &&& out.len() > 0 ==> all.len() > 0 && all[0] == out[0]
            &&& out.len() == 0 && all.len() > 0 ==> s.in_headers(name, headers, 0) == Some(all[0])
            &&& all.len() == 0 ==> forall|h: int|
                0 <= h < n ==> s.in_file(name, #[trigger] headers[h]) is None
            &&& forall|x: FnId| #[trigger]
                all.contains(x) ==> out.contains(x) || from_headers(s, x, name, headers)
        }),
    decreases n,
{
    if n > 0 {
        header_candidates_begin(s, out, name, headers, n - 1);
        let before = s.header_candidates(out, name, headers, n - 1);
        match s.in_file(name, headers[n - 1]) {
            Some(id) => {
                with_fn_begins(before, id);
                if before.len() == 0 {
                    headers_passed_over(s, name, headers, 0, n - 1);
                }
                assert(from_headers(s, id, name, headers));
            },
            None => {},
        }
    }
}

/// What a name means in a file comes first among all that it may mean, and it
/// means nothing only where there is nothing that it may mean. All external
/// functions of the name are among these, and so are those that only the file
/// or one of its headers can see; nothing else is, and nothing is twice.
pub proof fn meanings_come_first(s: SymbolsV, name: Seq<char>, file: Option<FileId>)
    requires
        names_agree(s),
    ensures
        match s.resolve_in_scope(name, file) {
            Some(id) => s.candidates(name, file).len() > 0 && s.candidates(name, file)[0] == id,
            None => s.candidates(name, file).len() == 0,
        },
        s.candidates(name, file).no_duplicates(),
        forall|id: FnId| #[trigger]
            s.external(name).contains(id) ==> s.candidates(name, file).contains(id),
        file matches Some(f) ==> (s.in_file(name, f) matches Some(id) ==> s.candidates(
            name,
            file,
        ).contains(id)),
        file matches Some(f) ==> forall|h: int|
            0 <= h < s.headers_of(f).len() ==> (s.in_file(
                name,
                #[trigger] s.headers_of(f)[h],
            ) matches Some(id) ==> s.candidates(name, file).contains(id)),
        forall|id: FnId| #[trigger]
            s.candidates(name, file).contains(id) ==> s.external(name).contains(id) || (
            file matches Some(f) && (s.in_file(name, f) == Some(id) || from_headers(
                s,
                id,
                name,
                s.headers_of(f),
            ))),
{
    let own = match file {
        Some(f) => match s.in_file(name, f) {
            Some(id) => seq![id],
            None => Seq::<FnId>::empty(),
        },
        None => Seq::<FnId>::empty(),
    };
    let scoped = match file {
        Some(f) => {
            let hs = s.headers_of(f);
            header_candidates_steps(s, own, name, hs, hs.len() as int);
            header_candidates_begin(s, own, name, hs, hs.len() as int);
            if s.in_file(name, f) is Some {
                assert(own[0] == s.in_file(name, f)->0);
                assert(own.contains(s.in_file(name, f)->0));
            } else if s.header_candidates(own, name, hs, hs.len() as int).len() == 0 {
                headers_passed_over(s, name, hs, 0, hs.len() as int);
            }
            s.header_candidates(own, name, hs, hs.len() as int)
        },
        None => own,
    };
    let named = match s.resolve(name) {
        Some(id) => {
            with_fn_keeps(scoped, id);
            with_fn_begins(scoped, id);
            with_fn(scoped, id)
        },
        None => scoped,
    };
    let all = with_fns(named, s.external(name));
    with_fns_keeps(named, s.external(name));
    with_fns_begins(named, s.external(name));
    assert(s.candidates(name, file) == all);
    assert forall|id: FnId| #[trigger] all.contains(id) implies s.external(name).contains(id) || (
    file matches Some(f) && (s.in_file(name, f) == Some(id) || from_headers(
        s,
        id,
        name,
        s.headers_of(f),
    ))) by {
        if !s.external(name).contains(id) {
            assert(named.contains(id));
            if s.resolve(name) is Some {
                assert(s.resolve(name) != Some(id));
            }
            assert(scoped.contains(id));
            if own.contains(id) {
                assert(s.in_file(name, file->0) == Some(id));
            }
        }
    }
}

/// Whether a name may mean a function in a file: an external function of the
/// name, or one that only the file can see, or only one of its headers.
pub open spec fn may_mean(s: SymbolsV, id: FnId, name: Seq<char>, file: Option<FileId>) -> bool {
    ||| s.external(name).contains(id) && is_external(s, id, name)
    ||| file matches Some(f) && is_internal(s, id, name, f)
    ||| file matches Some(f) && exists|h: int|
        0 <= h < s.headers_of(f).len() && is_internal(s, id, name, #[trigger] s.headers_of(f)[h])
}

/// Every candidate for the meaning of a name in a file is an external function
/// of the name, or a function of the name that only the file or one of its
/// headers can see.
pub proof fn candidates_have_the_name(
    s: SymbolsV,
    name: Seq<char>,
    file: Option<FileId>,
    id: FnId,
)
    requires
        well_named(s),
        s.candidates(name, file).contains(id),
    ensures
        may_mean(s, id, name, file),
{
    meanings_come_first(s, name, file);
    if s.external(name).contains(id) {
        let k = choose|k: int| 0 <= k < s.external(name).len() && s.external(name)[k] == id;
        assert(is_external(s, s.external(name)[k], name));
    } else {
        let f = file->0;
        if s.in_file(name, f) == Some(id) {
            assert(is_internal(s, id, name, f));
        } else {
            let hs = s.headers_of(f);
            let h = choose|h: int|
                0 <= h < hs.len() && s.in_file(name, #[trigger] hs[h]) == Some(id);
            assert(is_internal(s, id, name, hs[h]));
        }
    }
}

} // verus!
