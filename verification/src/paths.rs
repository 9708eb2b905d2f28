//! Slash-separated paths.

use crate::text::{cat2, cat3, chars_of, owned, str_eq, string_of};
use vstd::prelude::*;

verus! {

/// The position of the last `c` before `end`, or -1.
pub open spec fn last_index_before(s: Seq<char>, c: char, end: int) -> int
    decreases end,
{
    if end <= 0 {
        -1
    } else if s[end - 1] == c {
        end - 1
    } else {
        last_index_before(s, c, end - 1)
    }
}

/// The position of the last `c`, or -1.
pub open spec fn last_index(s: Seq<char>, c: char) -> int {
    last_index_before(s, c, s.len() as int)
}

/// What is behind the last slash.
pub open spec fn behind_slash(path: Seq<char>) -> Seq<char> {
    path.skip(last_index(path, '/') + 1)
}

/// How many of the first `n` characters of a path are left without the slashes
/// and the `/.` at their end. The root stays.
pub open spec fn trimmed_len(path: Seq<char>, n: int) -> int
    decreases n,
{
    if n > 1 && (path[n - 1] == '/' || (path[n - 1] == '.' && path[n - 2] == '/')) {
        trimmed_len(path, n - 1)
    } else {
        n
    }
}

/// The last part of a path, if that is a name: nothing for the root, and
/// where the path ends in `..` or is `.`.
pub open spec fn file_name_of(path: Seq<char>) -> Seq<char> {
    let n = trimmed_len(path, path.len() as int);
    let name = path.subrange(last_index_before(path, '/', n) + 1, n);
    if name == "."@ || name == ".."@ {
        Seq::empty()
    } else {
        name
    }
}

/// The directory that holds the file: what is before the last part, `/` for
/// a file in the root, and nothing for a bare name.
pub open spec fn dir_of(path: Seq<char>) -> Seq<char> {
    let n = trimmed_len(path, path.len() as int);
    let k = last_index_before(path, '/', n);
    if k < 0 {
        Seq::empty()
    } else {
        path.take(trimmed_len(path, k + 1))
    }
}

/// The parts of the first `n` characters of a path with one slash between
/// each two. A `.` is a part only at the beginning.
pub open spec fn tidied_to(path: Seq<char>, n: int) -> Seq<char>
    decreases n,
{
    let m = trimmed_len(path, n);
    let k = last_index_before(path, '/', m);
    if k < 0 || k + 1 >= n {
        path.take(m)
    } else {
        joined(tidied_to(path, k + 1), path.subrange(k + 1, m))
    }
}

/// What paths that name the same parts have in common.
pub open spec fn tidied(path: Seq<char>) -> Seq<char> {
    tidied_to(path, path.len() as int)
}

/// What is behind the last dot of the file name, unless the name begins
/// there.
pub open spec fn extension_of(path: Seq<char>) -> Option<Seq<char>> {
    let name = file_name_of(path);
    let k = last_index(name, '.');
    if k <= 0 {
        None
    } else {
        Some(name.skip(k + 1))
    }
}

/// `path` as seen from the directory `base`.
pub open spec fn joined(base: Seq<char>, path: Seq<char>) -> Seq<char> {
    if base.len() == 0 || (path.len() > 0 && path[0] == '/') {
        path
    } else if base.last() == '/' {
        base + path
    } else {
        base + "/"@ + path
    }
}

/// The position behind the last `c` before `end`, 0 if there is none.
fn after_last(s: &Vec<char>, c: char, end: usize) -> (r: usize)
    requires
        end <= s@.len(),
    ensures
        r == last_index_before(s@, c, end as int) + 1,
        r <= end,
{
    let mut i: usize = end;
    while i > 0
        invariant
            i <= end <= s@.len(),
            last_index_before(s@, c, i as int) == last_index_before(s@, c, end as int),
        decreases i,
    {
        if s[i - 1] == c {
            return i;
        }
        i = i - 1;
    }
    0
}

/// How much is left without slashes and `/.` at the end.
fn trim(s: &Vec<char>, end: usize) -> (r: usize)
    requires
        end <= s@.len(),
    ensures
        r == trimmed_len(s@, end as int),
        r <= end,
{
    let mut n: usize = end;
    while n > 1 && (s[n - 1] == '/' || (s[n - 1] == '.' && s[n - 2] == '/'))
        invariant
            n <= end <= s@.len(),
            trimmed_len(s@, n as int) == trimmed_len(s@, end as int),
        decreases n,
    {
        n = n - 1;
    }
    n
}

/// What is behind the last slash.
pub fn after_slash(path: &str) -> (r: String)
    ensures
        r@ == behind_slash(path@),
{
    let chars = chars_of(path);
    let k = after_last(&chars, '/', chars.len());
    let r = string_of(&chars, k, chars.len());
    assert(r@ =~= behind_slash(path@));
    r
}

pub fn file_name(path: &str) -> (r: String)
    ensures
        r@ == file_name_of(path@),
{
    let chars = chars_of(path);
    let n = trim(&chars, chars.len());
    let k = after_last(&chars, '/', n);
    let r = string_of(&chars, k, n);
    if str_eq(r.as_str(), ".") || str_eq(r.as_str(), "..") {
        let none = String::new();
        assert(none@ =~= Seq::<char>::empty());
        none
    } else {
        r
    }
}

pub fn directory(path: &str) -> (r: String)
    ensures
        r@ == dir_of(path@),
{
    let chars = chars_of(path);
    let n = trim(&chars, chars.len());
    let k = after_last(&chars, '/', n);
    if k == 0 {
        let r = String::new();
        assert(r@ =~= Seq::<char>::empty());
        r
    } else {
        let m = trim(&chars, k);
        let r = string_of(&chars, 0, m);
        assert(r@ =~= path@.take(m as int));
        r
    }
}

fn tidy_to(chars: &Vec<char>, n: usize) -> (r: String)
    requires
        n <= chars@.len(),
    ensures
        r@ == tidied_to(chars@, n as int),
    decreases n,
{
    let m = trim(chars, n);
    let k = after_last(chars, '/', m);
    if k == 0 || k >= n {
        let r = string_of(chars, 0, m);
        assert(r@ =~= chars@.take(m as int));
        r
    } else {
        let base = tidy_to(chars, k);
        let name = string_of(chars, k, m);
        join(base.as_str(), name.as_str())
    }
}

/// What paths that name the same parts have in common.
pub fn tidy(path: &str) -> (r: String)
    ensures
        r@ == tidied(path@),
{
    let chars = chars_of(path);
    tidy_to(&chars, chars.len())
}

pub fn extension(path: &str) -> (r: Option<String>)
    ensures
        match r {
            Some(e) => extension_of(path@) == Some(e@),
            None => extension_of(path@) is None,
        },
{
    let name = file_name(path);
    let chars = chars_of(name.as_str());
    let k = after_last(&chars, '.', chars.len());
    if k <= 1 {
        None
    } else {
        let r = string_of(&chars, k, chars.len());
        assert(r@ =~= file_name_of(path@).skip(k as int));
        Some(r)
    }
}

pub fn join(base: &str, path: &str) -> (r: String)
    ensures
        r@ == joined(base@, path@),
{
    let b = chars_of(base);
    let p = chars_of(path);
    if b.len() == 0 || (p.len() > 0 && p[0] == '/') {
        owned(path)
    } else if b[b.len() - 1] == '/' {
        cat2(base, path)
    } else {
        cat3(base, "/", path)
    }
}

/// The endings of files that hold declarations to be shared.
pub open spec fn is_header_extension(ext: Seq<char>) -> bool {
    ||| ext == "h"@
    ||| ext == "H"@
    ||| ext == "hpp"@
    ||| ext == "hh"@
    ||| ext == "hxx"@
    ||| ext == "inl"@
    ||| ext == "ipp"@
}

/// Whether a file's name ends like a header's.
pub open spec fn is_header_path(path: Seq<char>) -> bool {
    extension_of(path) is Some && is_header_extension(extension_of(path)->0)
}

pub fn is_header(path: &str) -> (r: bool)
    ensures
        r == is_header_path(path@),
{
    match extension(path) {
        Some(e) => {
            let e = e.as_str();
            str_eq(e, "h") || str_eq(e, "H") || str_eq(e, "hpp") || str_eq(e, "hh") || str_eq(
                e,
                "hxx",
            ) || str_eq(e, "inl") || str_eq(e, "ipp")
        },
        None => false,
    }
}

} // verus!
