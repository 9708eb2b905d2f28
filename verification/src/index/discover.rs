//! Which files of a tree are sources, and which are headers.

use crate::paths::{extension, extension_of, is_header, is_header_path};
use crate::text::{chars_of, names_view, owned, str_eq};
use vstd::prelude::*;
use vstd::seq_lib::*;

verus! {

/// Whether a file's name ends like a C++ source's.
pub open spec fn is_cpp(path: Seq<char>) -> bool {
    match extension_of(path) {
        Some(e) => e == "cpp"@ || e == "cc"@ || e == "cxx"@ || e == "c++"@,
        None => false,
    }
}

/// Whether a file's name ends like that of a source that is compiled by
/// itself.
pub open spec fn is_unit(path: Seq<char>) -> bool {
    extension_of(path) == Some("c"@) || is_cpp(path)
}

pub fn is_cpp_path(path: &str) -> (r: bool)
    ensures
        r == is_cpp(path@),
{
    match extension(path) {
        Some(e) => {
            let e = e.as_str();
            str_eq(e, "cpp") || str_eq(e, "cc") || str_eq(e, "cxx") || str_eq(e, "c++")
        },
        None => false,
    }
}

fn is_unit_path(path: &str) -> (r: bool)
    ensures
        r == is_unit(path@),
{
    let c = match extension(path) {
        Some(e) => str_eq(e.as_str(), "c"),
        None => false,
    };
    c || is_cpp_path(path)
}

/// The language that a source is written in.
#[derive(Debug, Clone, Copy, PartialEq, Eq, Structural)]
pub enum SourceLang {
    C,
    Cpp,
}

impl SourceLang {
    /// The language of a file, by its name.
    pub fn from_path(path: &str) -> (r: SourceLang)
        ensures
            r == if is_cpp(path@) {
                SourceLang::Cpp
            } else {
                SourceLang::C
            },
    {
        if is_cpp_path(path) {
            SourceLang::Cpp
        } else {
            SourceLang::C
        }
    }
}

/// How a character of a path counts in the order of paths: a slash comes
/// before all others, so that paths are ordered by their parts.
pub open spec fn rank(c: char) -> int {
    if c == '/' {
        -1
    } else {
        c as u32 as int
    }
}

/// Whether a path does not come behind another, from `i` on.
pub open spec fn not_behind(a: Seq<char>, b: Seq<char>, i: int) -> bool
    decreases a.len() - i,
{
    if i >= a.len() {
        true
    } else if i < 0 || i >= b.len() {
        false
    } else if a[i] == b[i] {
        not_behind(a, b, i + 1)
    } else {
        rank(a[i]) < rank(b[i])
    }
}

/// Whether paths are in order.
pub open spec fn in_order(paths: Seq<Seq<char>>) -> bool {
    forall|i: int, j: int|
        0 <= i < j < paths.len() ==> not_behind(#[trigger] paths[i], #[trigger] paths[j], 0)
}

proof fn not_behind_trans(a: Seq<char>, b: Seq<char>, c: Seq<char>, i: int)
    requires
        not_behind(a, b, i),
        not_behind(b, c, i),
        0 <= i,
    ensures
        not_behind(a, c, i),
    decreases a.len() - i,
{
    if i < a.len() {
        if a[i] == b[i] && b[i] == c[i] {
            not_behind_trans(a, b, c, i + 1);
        }
    }
}

proof fn rank_tells_apart(x: char, y: char)
    ensures
        rank(x) == rank(y) ==> x == y,
        rank(x) >= -1,
{
}

proof fn not_behind_total(a: Seq<char>, b: Seq<char>, i: int)
    requires
        0 <= i,
    ensures
        not_behind(a, b, i) || not_behind(b, a, i),
    decreases a.len() - i,
{
    if i < a.len() && i < b.len() {
        rank_tells_apart(a[i], b[i]);
        if a[i] == b[i] {
            not_behind_total(a, b, i + 1);
        }
    }
}

/// Two paths of which neither comes behind the other are the same path, so
/// there is one order for a collection of paths.
pub proof fn order_of_paths_is_strict(a: Seq<char>, b: Seq<char>)
    requires
        not_behind(a, b, 0),
        not_behind(b, a, 0),
    ensures
        a == b,
{
    same_from(a, b, 0);
    assert(a =~= b);
}

proof fn same_from(a: Seq<char>, b: Seq<char>, i: int)
    requires
        not_behind(a, b, i),
        not_behind(b, a, i),
        0 <= i,
    ensures
        i <= a.len() ==> i <= b.len() ==> a.len() == b.len(),
        forall|j: int| i <= j < a.len() && j < b.len() ==> a[j] == b[j],
    decreases a.len() - i,
{
    if i < a.len() && i < b.len() {
        same_from(a, b, i + 1);
    }
}

fn goes_before(a: &Vec<char>, b: &Vec<char>) -> (r: bool)
    ensures
        r == not_behind(a@, b@, 0),
{
    let mut i: usize = 0;
    while i < a.len()
        invariant
            i <= a@.len(),
            not_behind(a@, b@, i as int) == not_behind(a@, b@, 0),
        decreases a@.len() - i,
    {
        if i >= b.len() {
            return false;
        }
        if a[i] != b[i] {
            let x = a[i];
            let y = b[i];
            return if x == '/' {
                true
            } else if y == '/' {
                false
            } else {
                (x as u32) < (y as u32)
            };
        }
        i = i + 1;
    }
    true
}

/// Puts a path in its place.
fn insert_in_order(paths: &mut Vec<String>, path: &str)
    requires
        in_order(names_view(old(paths)@)),
    ensures
        in_order(names_view(final(paths)@)),
        names_view(final(paths)@).to_multiset() == names_view(old(paths)@).to_multiset().insert(
            path@,
        ),
{
    let ghost s = names_view(paths@);
    let p = chars_of(path);
    let mut lo: usize = 0;
    let mut hi: usize = paths.len();
    while lo < hi
        invariant
            s == names_view(paths@),
            in_order(s),
            p@ == path@,
            lo <= hi <= paths@.len(),
            forall|i: int| 0 <= i < lo ==> not_behind(#[trigger] s[i], path@, 0),
            forall|i: int| hi <= i < s.len() ==> not_behind(path@, #[trigger] s[i], 0),
        decreases hi - lo,
    {
        let mid = lo + (hi - lo) / 2;
        let m = chars_of(paths[mid].as_str());
        assert(s[mid as int] == m@);
        if goes_before(&m, &p) {
            proof {
                assert forall|i: int| 0 <= i < mid + 1 implies not_behind(
                    #[trigger] s[i],
                    path@,
                    0,
                ) by {
                    if i < mid {
                        not_behind_trans(s[i], s[mid as int], path@, 0);
                    }
                }
            }
            lo = mid + 1;
        } else {
            proof {
                not_behind_total(path@, s[mid as int], 0);
                assert forall|i: int| mid <= i < s.len() implies not_behind(
                    path@,
                    #[trigger] s[i],
                    0,
                ) by {
                    if i > mid {
                        not_behind_trans(path@, s[mid as int], s[i], 0);
                    }
                }
            }
            hi = mid;
        }
    }
    paths.insert(lo, owned(path));
    proof {
        let t = names_view(paths@);
        assert(t =~= s.insert(lo as int, path@));
        to_multiset_insert(s, lo as int, path@);
        assert forall|i: int, j: int| 0 <= i < j < t.len() implies not_behind(
            #[trigger] t[i],
            #[trigger] t[j],
            0,
        ) by {
            let a = if i < lo { i } else { i - 1 };
            let b = if j < lo { j } else { j - 1 };
            if i != lo && j != lo {
                assert(t[i] == s[a] && t[j] == s[b]);
            } else if i == lo {
                assert(t[j] == s[b]);
            } else {
                assert(t[i] == s[a]);
            }
        }
    }
}

/// The sources among the first `n` files.
pub open spec fn units_among(files: Seq<Seq<char>>, n: int) -> Seq<Seq<char>>
    decreases n,
{
    if n <= 0 {
        Seq::empty()
    } else if is_unit(files[n - 1]) {
        units_among(files, n - 1).push(files[n - 1])
    } else {
        units_among(files, n - 1)
    }
}

/// The headers among the first `n` files.
pub open spec fn headers_among(files: Seq<Seq<char>>, n: int) -> Seq<Seq<char>>
    decreases n,
{
    if n <= 0 {
        Seq::empty()
    } else if is_header_path(files[n - 1]) {
        headers_among(files, n - 1).push(files[n - 1])
    } else {
        headers_among(files, n - 1)
    }
}

/// The sources among the files of a tree, in order.
pub fn discover_c_files(files: &Vec<String>) -> (r: Vec<String>)
    ensures
        in_order(names_view(r@)),
        names_view(r@).to_multiset() == units_among(
            names_view(files@),
            files@.len() as int,
        ).to_multiset(),
{
    let ghost all = names_view(files@);
    let mut out: Vec<String> = Vec::new();
    let mut i: usize = 0;
    assert(names_view(out@) =~= Seq::empty());
    while i < files.len()
        invariant
            i <= files@.len(),
            all == names_view(files@),
            in_order(names_view(out@)),
            names_view(out@).to_multiset() == units_among(all, i as int).to_multiset(),
        decreases files@.len() - i,
    {
        assert(all[i as int] == files@[i as int]@);
        proof {
            to_multiset_build(units_among(all, i as int), all[i as int]);
        }
        if is_unit_path(files[i].as_str()) {
            insert_in_order(&mut out, files[i].as_str());
        }
        i = i + 1;
    }
    out
}

/// The headers among the files of a tree, in order.
pub fn discover_header_files(files: &Vec<String>) -> (r: Vec<String>)
    ensures
        in_order(names_view(r@)),
        names_view(r@).to_multiset() == headers_among(
            names_view(files@),
            files@.len() as int,
        ).to_multiset(),
{
    let ghost all = names_view(files@);
    let mut out: Vec<String> = Vec::new();
    let mut i: usize = 0;
    assert(names_view(out@) =~= Seq::empty());
    while i < files.len()
        invariant
            i <= files@.len(),
            all == names_view(files@),
            in_order(names_view(out@)),
            names_view(out@).to_multiset() == headers_among(all, i as int).to_multiset(),
        decreases files@.len() - i,
    {
        assert(all[i as int] == files@[i as int]@);
        proof {
            to_multiset_build(headers_among(all, i as int), all[i as int]);
        }
        if is_header(files[i].as_str()) {
            insert_in_order(&mut out, files[i].as_str());
        }
        i = i + 1;
    }
    out
}

/// The sources and the headers among the files of a tree, each in order.
pub fn discover_source_files(files: &Vec<String>) -> (r: (Vec<String>, Vec<String>))
    ensures
        in_order(names_view(r.0@)),
        names_view(r.0@).to_multiset() == units_among(
            names_view(files@),
            files@.len() as int,
        ).to_multiset(),
        in_order(names_view(r.1@)),
        names_view(r.1@).to_multiset() == headers_among(
            names_view(files@),
            files@.len() as int,
        ).to_multiset(),
{
    (discover_c_files(files), discover_header_files(files))
}

} // verus!
