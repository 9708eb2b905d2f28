//! What is exported, and how an export describes itself.

use crate::ir::program::{pairs_view, Program, ProgramV};
use crate::text::{clone_names, names_view, owned};
use vstd::prelude::*;

verus! {

/// What to export.
#[derive(Debug)]
pub struct ExportOptions {
    /// The path of the database.
    pub output: String,
    /// Whether what nodes may hold is exported. Nothing is, unless the
    /// analysis has kept it.
    pub include_points_to: bool,
    /// Whether types, all variables and all places are exported.
    pub full_detail: bool,
    /// The files that the models of functions were read from.
    pub model_files: Vec<String>,
}

impl ExportOptions {
    /// The call graph, and what flows through it.
    pub fn minimal(output: String) -> (r: ExportOptions)
        ensures
            r.output@ == output@,
            !r.include_points_to,
            !r.full_detail,
            r.model_files@ == Seq::<String>::empty(),
    {
        ExportOptions {
            output,
            include_points_to: false,
            full_detail: false,
            model_files: Vec::new(),
        }
    }
}

/// A list of named lists of names.
pub open spec fn name_lists_view(s: Seq<(String, Vec<String>)>) -> Seq<
    (Seq<char>, Seq<Seq<char>>),
> {
    Seq::new(s.len(), |i: int| (s[i].0@, names_view(s[i].1@)))
}

/// A list of named lists of pairs.
pub open spec fn pair_lists_view(s: Seq<(String, Vec<(String, String)>)>) -> Seq<
    (Seq<char>, Seq<(Seq<char>, Seq<char>)>),
> {
    Seq::new(s.len(), |i: int| (s[i].0@, pairs_view(s[i].1@)))
}

/// A list of named flags.
pub open spec fn flags_view(s: Seq<(String, bool)>) -> Seq<(Seq<char>, bool)> {
    Seq::new(s.len(), |i: int| (s[i].0@, s[i].1))
}

/// The text of the JSON object whose members are flags, lists of strings, and
/// objects of strings.
pub uninterp spec fn json_object_text(
    flags: Seq<(Seq<char>, bool)>,
    names: Seq<(Seq<char>, Seq<Seq<char>>)>,
    pairs: Seq<(Seq<char>, Seq<(Seq<char>, Seq<char>)>)>,
) -> Seq<char>;

/// `serde_json::Value::to_string` gives the text of a JSON value: here of an
/// object that holds the flags as booleans, the names as arrays of strings,
/// and the pairs as objects, with the first part of a pair as key and the
/// second as value. The text depends on nothing else.
#[verifier::external_body]
fn json_object(
    flags: &Vec<(String, bool)>,
    names: &Vec<(String, Vec<String>)>,
    pairs: &Vec<(String, Vec<(String, String)>)>,
) -> (r: String)
    ensures
        r@ == json_object_text(flags_view(flags@), name_lists_view(names@), pair_lists_view(pairs@)),
{
    let mut object = serde_json::Map::new();
    for (key, flag) in flags {
        object.insert(key.clone(), serde_json::Value::from(*flag));
    }
    for (key, list) in names {
        object.insert(key.clone(), serde_json::Value::from(list.clone()));
    }
    for (key, list) in pairs {
        let members = list.iter().map(|(a, b)| (a.clone(), serde_json::Value::from(b.clone())));
        object.insert(key.clone(), members.collect::<serde_json::Value>());
    }
    serde_json::Value::Object(object).to_string()
}

/// How a run describes its options.
pub open spec fn options_text(
    p: ProgramV,
    include_points_to: bool,
    full_detail: bool,
    model_files: Seq<Seq<char>>,
) -> Seq<char> {
    json_object_text(
        seq![("include_points_to"@, include_points_to), ("full_detail"@, full_detail)],
        seq![("include_paths"@, p.include_paths), ("model_files"@, model_files)],
        seq![("defines"@, p.defines)],
    )
}

fn clone_pairs(pairs: &Vec<(String, String)>) -> (r: Vec<(String, String)>)
    ensures
        pairs_view(r@) == pairs_view(pairs@),
{
    let mut out: Vec<(String, String)> = Vec::new();
    let mut i: usize = 0;
    while i < pairs.len()
        invariant
            i <= pairs@.len(),
            out@.len() == i,
            forall|j: int|
                0 <= j < i ==> (#[trigger] out@[j]).0@ == pairs@[j].0@ && out@[j].1@
                    == pairs@[j].1@,
        decreases pairs@.len() - i,
    {
        out.push((pairs[i].0.clone(), pairs[i].1.clone()));
        i = i + 1;
    }
    assert(pairs_view(out@) =~= pairs_view(pairs@));
    out
}

/// How a run describes its options, as JSON.
pub fn options_json(program: &Program, opts: &ExportOptions) -> (r: String)
    ensures
        r@ == options_text(
            program@,
            opts.include_points_to,
            opts.full_detail,
            names_view(opts.model_files@),
        ),
{
    let mut flags: Vec<(String, bool)> = Vec::new();
    flags.push((owned("include_points_to"), opts.include_points_to));
    flags.push((owned("full_detail"), opts.full_detail));
    assert(flags_view(flags@) =~= seq![
        ("include_points_to"@, opts.include_points_to),
        ("full_detail"@, opts.full_detail),
    ]);
    let mut names: Vec<(String, Vec<String>)> = Vec::new();
    names.push((owned("include_paths"), clone_names(&program.include_paths)));
    names.push((owned("model_files"), clone_names(&opts.model_files)));
    assert(name_lists_view(names@) =~= seq![
        ("include_paths"@, program@.include_paths),
        ("model_files"@, names_view(opts.model_files@)),
    ]);
    let mut pairs: Vec<(String, Vec<(String, String)>)> = Vec::new();
    pairs.push((owned("defines"), clone_pairs(&program.defines)));
    assert(pair_lists_view(pairs@) =~= seq![("defines"@, program@.defines)]);
    json_object(&flags, &names, &pairs)
}

} // verus!
