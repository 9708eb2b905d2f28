//! From the arguments of a run to its options.

use crate::ir::program::pairs_view;
use crate::preproc::condition::{parse_number, parsed_number};
use crate::preproc::options::PreprocessOptions;
use crate::text::{
    cat2, cat3, chars_of, decimal, decimal_of, names_view, owned, push_name, str_eq, string_of,
    trim, trimmed,
};
use crate::preproc::options;
use vstd::prelude::*;

verus! {

/// The position of the first `c` from `i` on; the length if there is none.
pub open spec fn first_index(s: Seq<char>, c: char, i: int) -> int
    decreases s.len() - i,
{
    if i < 0 || i >= s.len() || s[i] == c {
        i
    } else {
        first_index(s, c, i + 1)
    }
}

/// The macro that an argument defines, and its value: what is before and
/// behind the first `=`; 1 if there is none.
pub open spec fn define_of(def: Seq<char>) -> (Seq<char>, Seq<char>) {
    let k = first_index(def, '=', 0);
    if k < def.len() {
        (def.take(k), def.skip(k + 1))
    } else {
        (def, "1"@)
    }
}

/// The macro that an argument defines, and its value.
pub fn parse_define(def: &str) -> (r: (String, String))
    ensures
        (r.0@, r.1@) == define_of(def@),
{
    let c = chars_of(def);
    let n = c.len();
    let mut i: usize = 0;
    while i < n && c[i] != '='
        invariant
            c@ == def@,
            n == c@.len(),
            i <= n,
            first_index(def@, '=', i as int) == first_index(def@, '=', 0),
        decreases n - i,
    {
        i = i + 1;
    }
    if i < n {
        assert(def@.subrange(0, i as int) =~= def@.take(i as int));
        assert(def@.subrange(i + 1, n as int) =~= def@.skip(i + 1));
        (string_of(&c, 0, i), string_of(&c, i + 1, n))
    } else {
        (owned(def), owned("1"))
    }
}

/// The macros that arguments define.
pub open spec fn defines_of(defs: Seq<Seq<char>>) -> Seq<(Seq<char>, Seq<char>)> {
    Seq::new(defs.len(), |i: int| define_of(defs[i]))
}

/// The options of a run: where headers are looked up, and what is defined.
pub fn configure(includes: &Vec<String>, defines: &Vec<String>) -> (r: PreprocessOptions)
    ensures
        names_view(r.include_paths@) == names_view(includes@),
        pairs_view(r.defines@) == defines_of(names_view(defines@)),
        r.shared_macros is None,
        !r.accumulate_macros,
        r.include_expansion_cache is None,
        !r.frozen_expansion_cache,
        r.inline_include_bodies,
        r.max_include_depth == options::DEFAULT_MAX_INCLUDE_DEPTH,
        r.max_expanded_tokens == options::DEFAULT_MAX_EXPANDED_TOKENS,
        r.max_output_bytes == options::DEFAULT_MAX_OUTPUT_BYTES,
        r.track_line_map,
        r.basename_index is None,
        r.tree@ == Map::<Seq<char>, options::FileV>::empty(),
{
    let fresh = PreprocessOptions::new();
    let mut opts = fresh;
    let mut i: usize = 0;
    assert(names_view(opts.include_paths@) =~= names_view(includes@).take(0));
    while i < includes.len()
        invariant
            i <= includes@.len(),
            names_view(opts.include_paths@) == names_view(includes@).take(i as int),
            opts == (PreprocessOptions { include_paths: opts.include_paths, ..fresh }),
        decreases includes@.len() - i,
    {
        opts = opts.with_include(includes[i].as_str());
        assert(names_view(includes@).take(i + 1) =~= names_view(includes@).take(i as int).push(
            includes@[i as int]@,
        ));
        i = i + 1;
    }
    assert(names_view(includes@).take(i as int) =~= names_view(includes@));
    let ghost paths = opts.include_paths;
    let mut i: usize = 0;
    assert(pairs_view(opts.defines@) =~= defines_of(names_view(defines@)).take(0));
    while i < defines.len()
        invariant
            i <= defines@.len(),
            pairs_view(opts.defines@) == defines_of(names_view(defines@)).take(i as int),
            opts == (PreprocessOptions { include_paths: paths, defines: opts.defines, ..fresh }),
        decreases defines@.len() - i,
    {
        let (name, value) = parse_define(defines[i].as_str());
        let ghost before = opts.defines@;
        opts = opts.with_define(name.as_str(), value.as_str());
        proof {
            let all = defines_of(names_view(defines@));
            assert(names_view(defines@)[i as int] == defines@[i as int]@);
            assert(opts.defines@ =~= before.push(opts.defines@.last()));
            assert(pairs_view(opts.defines@) =~= pairs_view(before).push(all[i as int]));
            assert(all.take(i + 1) =~= all.take(i as int).push(all[i as int]));
        }
        i = i + 1;
    }
    assert(defines_of(names_view(defines@)).take(i as int) =~= defines_of(names_view(defines@)));
    opts
}

/// The steps of a path from `i` on: what is between slashes, without empty
/// steps, and without steps to the same directory other than a leading one.
pub open spec fn steps(path: Seq<char>, i: int) -> Seq<Seq<char>>
    decreases path.len() + 1 - i,
{
    if i < 0 || i >= path.len() {
        Seq::empty()
    } else {
        let k = first_index(path, '/', i);
        proof {
            first_index_bounds(path, '/', i);
        }
        let step = path.subrange(i, k);
        let rest = steps(path, k + 1);
        if step.len() == 0 || (step == "."@ && i > 0) {
            rest
        } else {
            seq![step] + rest
        }
    }
}

pub proof fn first_index_bounds(s: Seq<char>, c: char, i: int)
    requires
        0 <= i <= s.len(),
    ensures
        i <= first_index(s, c, i) <= s.len(),
    decreases s.len() - i,
{
    if i < s.len() && s[i] != c {
        first_index_bounds(s, c, i + 1);
    }
}

/// Whether a path starts at the root.
pub open spec fn is_absolute(path: Seq<char>) -> bool {
    path.len() > 0 && path[0] == '/'
}

/// Whether a list starts with another.
pub open spec fn is_prefix(a: Seq<Seq<char>>, b: Seq<Seq<char>>) -> bool {
    b.len() <= a.len() && forall|i: int| 0 <= i < b.len() ==> #[trigger] a[i] == b[i]
}

/// Whether a path leads through a directory, step by step.
pub open spec fn is_under(path: Seq<char>, dir: Seq<char>) -> bool {
    is_absolute(path) == is_absolute(dir) && is_prefix(steps(path, 0), steps(dir, 0))
}

fn steps_of(path: &str) -> (r: Vec<String>)
    ensures
        names_view(r@) == steps(path@, 0),
{
    let c = chars_of(path);
    let n = c.len();
    let mut out: Vec<String> = Vec::new();
    let mut i: usize = 0;
    assert(names_view(out@) + steps(path@, 0) =~= steps(path@, 0));
    while i < n
        invariant
            c@ == path@,
            n == c@.len(),
            i <= n,
            names_view(out@) + steps(path@, i as int) == steps(path@, 0),
        decreases n - i,
    {
        let mut k: usize = i;
        while k < n && c[k] != '/'
            invariant
                c@ == path@,
                n == c@.len(),
                i <= k <= n,
                first_index(path@, '/', k as int) == first_index(path@, '/', i as int),
            decreases n - k,
        {
            k = k + 1;
        }
        let step = string_of(&c, i, k);
        let ghost before = names_view(out@);
        let ghost s = step@;
        if i < k && !(str_eq(step.as_str(), ".") && i > 0) {
            push_name(&mut out, step);
            assert(before + (seq![s] + steps(path@, k + 1)) =~= names_view(out@) + steps(
                path@,
                k + 1,
            ));
        }
        if k == n {
            assert(steps(path@, k + 1) =~= Seq::<Seq<char>>::empty());
            assert(names_view(out@) + steps(path@, k + 1) =~= names_view(out@) + steps(
                path@,
                n as int,
            ));
            i = n;
        } else {
            i = k + 1;
        }
    }
    assert(names_view(out@) + steps(path@, i as int) =~= names_view(out@));
    out
}

/// Whether a path leads through a directory.
pub fn lies_under(path: &str, dir: &str) -> (r: bool)
    ensures
        r == is_under(path@, dir@),
{
    let p = chars_of(path);
    let d = chars_of(dir);
    let from_root = p.len() > 0 && p[0] == '/';
    let dir_from_root = d.len() > 0 && d[0] == '/';
    if from_root != dir_from_root {
        return false;
    }
    let a = steps_of(path);
    let b = steps_of(dir);
    if b.len() > a.len() {
        return false;
    }
    let mut i: usize = 0;
    while i < b.len()
        invariant
            i <= b@.len() <= a@.len(),
            forall|j: int| 0 <= j < i ==> #[trigger] names_view(a@)[j] == names_view(b@)[j],
            names_view(a@) == steps(path@, 0),
            names_view(b@) == steps(dir@, 0),
        decreases b@.len() - i,
    {
        assert(names_view(a@)[i as int] == a@[i as int]@);
        assert(names_view(b@)[i as int] == b@[i as int]@);
        if !str_eq(a[i].as_str(), b[i].as_str()) {
            assert(!is_prefix(steps(path@, 0), steps(dir@, 0)));
            return false;
        }
        i = i + 1;
    }
    assert(is_prefix(names_view(a@), names_view(b@)));
    true
}

/// Those of the first `n` directories that neither lie under the root nor
/// hold it.
pub open spec fn outside(root: Seq<char>, dirs: Seq<Seq<char>>, n: int) -> Seq<Seq<char>>
    decreases n,
{
    if n <= 0 {
        Seq::empty()
    } else {
        let before = outside(root, dirs, n - 1);
        if is_under(dirs[n - 1], root) || is_under(root, dirs[n - 1]) {
            before
        } else {
            before.push(dirs[n - 1])
        }
    }
}

/// The directories for headers that lie outside the analyzed tree. All paths
/// are in canonical form.
pub fn outside_paths(root: &str, dirs: &Vec<String>) -> (r: Vec<String>)
    ensures
        names_view(r@) == outside(root@, names_view(dirs@), dirs@.len() as int),
{
    let ghost all = names_view(dirs@);
    let mut out: Vec<String> = Vec::new();
    let mut i: usize = 0;
    assert(names_view(out@) =~= outside(root@, all, 0));
    while i < dirs.len()
        invariant
            all == names_view(dirs@),
            i <= dirs@.len(),
            names_view(out@) == outside(root@, all, i as int),
        decreases dirs@.len() - i,
    {
        let d = dirs[i].as_str();
        assert(all[i as int] == d@);
        if !(lies_under(d, root) || lies_under(root, d)) {
            push_name(&mut out, owned(d));
        }
        i = i + 1;
    }
    out
}

/// How many directories a warning names.
pub const SHOWN_PATHS: usize = 5;

/// The lines that warn of directories outside the analyzed tree.
pub open spec fn outside_lines(root: Seq<char>, dirs: Seq<Seq<char>>) -> Seq<Seq<char>> {
    if dirs.len() == 0 {
        Seq::empty()
    } else {
        let shown = if dirs.len() > SHOWN_PATHS {
            SHOWN_PATHS as nat
        } else {
            dirs.len()
        };
        let head = seq![
            "warning: "@ + decimal_of(dirs.len())
                + " include path(s) lie outside the analysis tree "@ + root + ";"@,
            "         headers may resolve to twins in another tree and lose definitions:"@,
        ] + Seq::new(shown, |i: int| "           "@ + dirs[i]);
        if dirs.len() > SHOWN_PATHS {
            head.push(
                "           ... and "@ + decimal_of((dirs.len() - SHOWN_PATHS) as nat) + " more"@,
            )
        } else {
            head
        }
    }
}

/// The lines that warn of directories outside the analyzed tree: headers may
/// then be found there in place of their twins in the tree.
pub fn outside_warning(root: &str, dirs: &Vec<String>) -> (r: Vec<String>)
    ensures
        names_view(r@) == outside_lines(root@, names_view(dirs@)),
{
    let mut out: Vec<String> = Vec::new();
    let ghost all = names_view(dirs@);
    if dirs.len() == 0 {
        assert(names_view(out@) =~= outside_lines(root@, all));
        return out;
    }
    let first = cat3(
        cat3(
            "warning: ",
            decimal(dirs.len() as u64).as_str(),
            " include path(s) lie outside the analysis tree ",
        ).as_str(),
        root,
        ";",
    );
    push_name(&mut out, first);
    push_name(
        &mut out,
        owned("         headers may resolve to twins in another tree and lose definitions:"),
    );
    let shown = if dirs.len() > SHOWN_PATHS {
        SHOWN_PATHS
    } else {
        dirs.len()
    };
    let ghost head = names_view(out@);
    let ghost lines = Seq::new(shown as nat, |i: int| "           "@ + all[i]);
    let mut i: usize = 0;
    assert(head =~= head + lines.take(0));
    while i < shown
        invariant
            i <= shown <= dirs@.len(),
            all == names_view(dirs@),
            lines == Seq::new(shown as nat, |i: int| "           "@ + all[i]),
            names_view(out@) == head + lines.take(i as int),
        decreases shown - i,
    {
        push_name(&mut out, cat2("           ", dirs[i].as_str()));
        assert(all[i as int] == dirs@[i as int]@);
        assert(head + lines.take(i + 1) =~= (head + lines.take(i as int)).push(lines[i as int]));
        i = i + 1;
    }
    assert(lines.take(i as int) =~= lines);
    if dirs.len() > SHOWN_PATHS {
        push_name(
            &mut out,
            cat3("           ... and ", decimal((dirs.len() - SHOWN_PATHS) as u64).as_str(), " more"),
        );
    }
    assert(head =~= seq![
        "warning: "@ + decimal_of(all.len()) + " include path(s) lie outside the analysis tree "@
            + root@ + ";"@,
        "         headers may resolve to twins in another tree and lose definitions:"@,
    ]);
    assert(names_view(out@) =~= outside_lines(root@, all));
    out
}

/// The budget of the solver: what the environment says, or the given one if
/// it says nothing that is a number. 0 lifts the limit.
pub open spec fn budget_of(setting: Option<Seq<char>>, budget: Option<u64>) -> Option<u64> {
    match setting {
        None => budget,
        Some(text) => if trimmed(text) == "0"@ {
            None
        } else {
            match parsed_number(text, 10) {
                Some(n) => if n <= u64::MAX {
                    Some(n as u64)
                } else {
                    budget
                },
                None => budget,
            }
        },
    }
}

/// The budget of the solver.
pub fn solve_budget(setting: Option<&str>, budget: Option<u64>) -> (r: Option<u64>)
    ensures
        r == budget_of(
            match setting {
                Some(s) => Some(s@),
                None => None,
            },
            budget,
        ),
{
    match setting {
        None => budget,
        Some(text) => {
            if str_eq(trim(text).as_str(), "0") {
                return None;
            }
            let c = chars_of(text);
            assert(c@.subrange(0, c@.len() as int) =~= text@);
            match parse_number(&c, 0, c.len(), 10) {
                Some(n) => if n <= u64::MAX as u128 {
                    Some(n as u64)
                } else {
                    budget
                },
                None => budget,
            }
        },
    }
}

} // verus!
