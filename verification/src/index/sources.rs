//! How paths come apart, and which files are sources and headers.

use crate::index::discover::{headers_among, is_cpp, is_unit, units_among};
use crate::paths::{
    dir_of, extension_of, file_name_of, is_header_path, joined, last_index_before, trimmed_len,
};
use vstd::prelude::*;

verus! {

proof fn last_is_at(s: Seq<char>, c: char, k: int, end: int)
    requires
        -1 <= k < end <= s.len() || (k == -1 && end == 0),
        k >= 0 ==> s[k] == c,
        forall|j: int| k < j < end ==> #[trigger] s[j] != c,
    ensures
        last_index_before(s, c, end) == k,
    decreases end,
{
    if end - 1 > k {
        assert(s[end - 1] != c);
        last_is_at(s, c, k, end - 1);
    }
}

/// Whether a text is the name of a file: it is not empty, has no slash, and is
/// not one of the two names that lead to directories.
pub open spec fn is_file_name(name: Seq<char>) -> bool {
    &&& name.len() > 0
    &&& !name.contains('/')
    &&& name != "."@
    &&& name != ".."@
}

/// Whether a text is a directory without a slash, or a slash and a dot, at its
/// end.
pub open spec fn is_trim(dir: Seq<char>) -> bool {
    &&& dir.len() > 0
    &&& dir.last() != '/'
    &&& !(dir.len() > 1 && dir.last() == '.' && dir[dir.len() - 2] == '/')
}

proof fn name_stays(path: Seq<char>, name: Seq<char>)
    requires
        is_file_name(name),
        path.len() >= name.len(),
        path.skip(path.len() - name.len()) == name,
        path.len() > name.len() ==> path[path.len() - name.len() - 1] == '/',
    ensures
        trimmed_len(path, path.len() as int) == path.len(),
        last_index_before(path, '/', path.len() as int) == path.len() - name.len() - 1,
        file_name_of(path) == name,
{
    let at = path.len() - name.len();
    assert forall|j: int| at <= j < path.len() implies #[trigger] path[j] != '/' by {
        assert(name[j - at] == path[j]);
        assert(name.contains(name[j - at]));
    }
    let n = path.len() as int;
    assert(path[n - 1] != '/');
    if n > 1 && path[n - 1] == '.' && path[n - 2] == '/' {
        reveal_strlit(".");
        assert(name.len() == 1) by {
            if name.len() > 1 {
                assert(path[n - 2] != '/');
            }
        }
        assert(name[0] == path[n - 1]);
        assert(name =~= "."@);
    }
    last_is_at(path, '/', at - 1, n);
    assert(path.subrange(at, n) =~= name);
}

/// A file of a directory is in that directory, and goes by its name.
pub proof fn files_are_in_their_directory(dir: Seq<char>, name: Seq<char>)
    requires
        is_trim(dir),
        is_file_name(name),
    ensures
        dir_of(joined(dir, name)) == dir,
        file_name_of(joined(dir, name)) == name,
        dir_of(name) == Seq::<char>::empty(),
        file_name_of(name) == name,
{
    reveal_strlit("/");
    assert(name[0] != '/') by {
        assert(name.contains(name[0]));
    }
    let path = joined(dir, name);
    let d = dir.len() as int;
    assert(path == dir + "/"@ + name);
    assert(path.skip(d + 1) =~= name);
    assert(path[d] == '/');
    name_stays(path, name);
    assert(path[d - 1] == dir.last());
    if d > 1 {
        assert(path[d - 2] == dir[d - 2]);
    }
    assert(trimmed_len(path, d) == d);
    assert(trimmed_len(path, d + 1) == d);
    assert(path.take(d) =~= dir);
    assert(name.skip(0) =~= name);
    name_stays(name, name);
}

/// The extension of a file is what stands behind the last dot of its name.
pub proof fn extensions_are_behind_the_dot(path: Seq<char>, stem: Seq<char>, ext: Seq<char>)
    requires
        stem.len() > 0,
        !stem.contains('/'),
        !ext.contains('/'),
        !ext.contains('.'),
        ({
            let name = stem + seq!['.'] + ext;
            &&& is_file_name(name)
            &&& path.len() >= name.len()
            &&& path.skip(path.len() - name.len()) == name
            &&& path.len() > name.len() ==> path[path.len() - name.len() - 1] == '/'
        }),
    ensures
        extension_of(path) == Some(ext),
{
    let name = stem + seq!['.'] + ext;
    name_stays(path, name);
    let k = stem.len() as int;
    assert(name[k] == '.');
    assert forall|j: int| k < j < name.len() implies #[trigger] name[j] != '.' by {
        assert(ext[j - k - 1] == name[j]);
        assert(ext.contains(ext[j - k - 1]));
    }
    last_is_at(name, '.', k, name.len() as int);
    assert(name.skip(k + 1) =~= ext);
}

/// The files of C and C++ that are compiled by themselves are known by their
/// extensions, and so is the language.
pub proof fn sources_are_known_by_their_extension(path: Seq<char>)
    ensures
        is_unit(path) <==> extension_of(path) is Some && ({
            let e = extension_of(path)->0;
            e == "c"@ || e == "cc"@ || e == "cpp"@ || e == "cxx"@ || e == "c++"@
        }),
        is_unit(path) && extension_of(path) != Some("c"@) <==> is_cpp(path),
{
    reveal_strlit("c");
    reveal_strlit("cc");
    reveal_strlit("cpp");
    reveal_strlit("cxx");
    reveal_strlit("c++");
    assert("c"@.len() == 1 && "cc"@.len() == 2 && "cpp"@.len() == 3 && "cxx"@.len() == 3
        && "c++"@.len() == 3);
}

/// The sources among files are exactly those files that are sources, and the
/// headers exactly those that are headers.
pub proof fn all_sources_and_headers_are_found(files: Seq<Seq<char>>, n: int, f: Seq<char>)
    requires
        0 <= n <= files.len(),
    ensures
        units_among(files, n).contains(f) <==> is_unit(f) && exists|i: int|
            0 <= i < n && #[trigger] files[i] == f,
        headers_among(files, n).contains(f) <==> is_header_path(f) && exists|i: int|
            0 <= i < n && #[trigger] files[i] == f,
    decreases n,
{
    if n > 0 {
        all_sources_and_headers_are_found(files, n - 1, f);
        grown_by_one(units_among(files, n - 1), units_among(files, n), files[n - 1], f);
        grown_by_one(headers_among(files, n - 1), headers_among(files, n), files[n - 1], f);
        if files[n - 1] == f {
            assert(files[n - 1] == f);
        }
    }
}

proof fn grown_by_one(a: Seq<Seq<char>>, b: Seq<Seq<char>>, x: Seq<char>, f: Seq<char>)
    requires
        b == a || b == a.push(x),
    ensures
        a.contains(f) ==> b.contains(f),
        b == a.push(x) && f == x ==> b.contains(f),
        b.contains(f) && !a.contains(f) ==> f == x && b == a.push(x),
{
    if a.contains(f) {
        let j = choose|j: int| 0 <= j < a.len() && a[j] == f;
        assert(b[j] == f);
    }
    if b == a.push(x) && f == x {
        assert(b[b.len() - 1] == f);
    }
    if b.contains(f) && !a.contains(f) {
        let j = choose|j: int| 0 <= j < b.len() && b[j] == f;
        if j < a.len() {
            assert(a[j] == f);
        }
    }
}

} // verus!
