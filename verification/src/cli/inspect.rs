//! What is asked of a database, and how the answers read.

use crate::cli::pattern::{escaped, like_escape};
use crate::paths::{after_slash, behind_slash};
use crate::text::{
    byte_len, cat2, cat3, char_width, chars_of, decimal, decimal_of, names_view, owned, push_name,
    str_eq, utf8_width,
};
use vstd::prelude::*;

verus! {

/// A query: its text, and its parameters in order.
#[verifier::ext_equal]
pub struct QueryV {
    pub sql: Seq<char>,
    pub params: Seq<Seq<char>>,
}

impl QueryV {
    /// Narrowed to rows in which a column is the name, or ends with `::` and
    /// the name.
    pub open spec fn with_name(self, column: Seq<char>, name: Seq<char>) -> QueryV {
        QueryV {
            sql: self.sql + " AND ("@ + column + " = ?"@ + decimal_of(self.params.len() + 1)
                + " OR "@ + column + " LIKE ?"@ + decimal_of(self.params.len() + 2)
                + " ESCAPE '!')"@,
            params: self.params.push(name).push("%::"@ + escaped(name)),
        }
    }

    /// Narrowed to rows in which the path of the caller or the callee holds
    /// a text.
    pub open spec fn with_file(self, part: Seq<char>) -> QueryV {
        let n = decimal_of(self.params.len() + 1);
        QueryV {
            sql: self.sql + " AND (csf.path LIKE ?"@ + n + " ESCAPE '!' OR callee_f.path LIKE ?"@
                + n + " ESCAPE '!')"@,
            params: self.params.push("%"@ + escaped(part) + "%"@),
        }
    }
}

/// Narrows a query to rows in which a column is the name, or ends with `::`
/// and the name: a method is found without its class.
pub fn push_fn_name_filter(sql: &mut String, params: &mut Vec<String>, column: &str, name: &str)
    ensures
        ({
            let q = QueryV { sql: old(sql)@, params: names_view(old(params)@) }.with_name(
                column@,
                name@,
            );
            final(sql)@ == q.sql && names_view(final(params)@) == q.params
        }),
{
    push_name(params, owned(name));
    assert(names_view(params@).len() == params@.len());
    let eq = params.len();
    push_name(params, cat2("%::", like_escape(name).as_str()));
    assert(names_view(params@).len() == params@.len());
    let like = params.len();
    let mut t = cat3(sql.as_str(), " AND (", column);
    t = cat3(t.as_str(), " = ?", decimal(eq as u64).as_str());
    t = cat3(t.as_str(), " OR ", column);
    t = cat3(t.as_str(), " LIKE ?", decimal(like as u64).as_str());
    t = cat2(t.as_str(), " ESCAPE '!')");
    *sql = t;
}

/// What the list of calls is selected from.
pub const CALLS_SQL: &'static str =
    "SELECT caller.name, csf.path, cs.line, callee.name, callee_f.path, ce.resolution FROM call_edges ce LEFT JOIN call_sites cs ON cs.id = ce.call_site_id LEFT JOIN files csf ON csf.id = cs.file_id JOIN functions caller ON caller.id = ce.caller_fn_id JOIN files callee_f ON callee_f.id = callee.file_id JOIN functions callee ON callee.id = ce.callee_fn_id WHERE 1=1";

/// How the list of calls is ordered: calls without a call site come last.
pub const CALLS_ORDER: &'static str =
    " ORDER BY CASE WHEN csf.path IS NULL THEN 1 ELSE 0 END, csf.path, cs.line";

pub open spec fn text_of(s: Option<&str>) -> Option<Seq<char>> {
    match s {
        Some(t) => Some(t@),
        None => None,
    }
}

/// The query for the calls from and to functions, in files.
pub open spec fn calls_query(
    from: Option<Seq<char>>,
    to: Option<Seq<char>>,
    file: Option<Seq<char>>,
) -> QueryV {
    let q0 = QueryV { sql: CALLS_SQL@, params: Seq::empty() };
    let q1 = match from {
        Some(f) => q0.with_name("caller.name"@, f),
        None => q0,
    };
    let q2 = match to {
        Some(t) => q1.with_name("callee.name"@, t),
        None => q1,
    };
    let q3 = match file {
        Some(p) => q2.with_file(p),
        None => q2,
    };
    QueryV { sql: q3.sql + CALLS_ORDER@, params: q3.params }
}

/// The query for the calls from and to functions, in files.
pub fn query_for_calls(from: Option<&str>, to: Option<&str>, file: Option<&str>) -> (r: (
    String,
    Vec<String>,
))
    ensures
        r.0@ == calls_query(text_of(from), text_of(to), text_of(file)).sql,
        names_view(r.1@) == calls_query(text_of(from), text_of(to), text_of(file)).params,
{
    let mut sql = owned(CALLS_SQL);
    let mut params: Vec<String> = Vec::new();
    assert(names_view(params@) =~= Seq::<Seq<char>>::empty());
    if let Some(f) = from {
        push_fn_name_filter(&mut sql, &mut params, "caller.name", f);
    }
    if let Some(t) = to {
        push_fn_name_filter(&mut sql, &mut params, "callee.name", t);
    }
    if let Some(p) = file {
        push_name(&mut params, cat3("%", like_escape(p).as_str(), "%"));
        assert(names_view(params@).len() == params@.len());
        let n = decimal(params.len() as u64);
        let mut t = cat3(sql.as_str(), " AND (csf.path LIKE ?", n.as_str());
        t = cat3(t.as_str(), " ESCAPE '!' OR callee_f.path LIKE ?", n.as_str());
        sql = cat2(t.as_str(), " ESCAPE '!')");
    }
    (cat2(sql.as_str(), CALLS_ORDER), params)
}

/// A number with its sign.
pub open spec fn signed_text(n: int) -> Seq<char> {
    if n < 0 {
        "-"@ + decimal_of((-n) as nat)
    } else {
        decimal_of(n as nat)
    }
}

/// A number with its sign.
pub fn signed(n: i64) -> (r: String)
    ensures
        r@ == signed_text(n as int),
{
    if n < 0 {
        let m: u64 = (-(n + 1)) as u64 + 1;
        cat2("-", decimal(m).as_str())
    } else {
        decimal(n as u64)
    }
}

/// A call of the list, as it is shown.
pub struct CallShown {
    pub caller: String,
    pub site_path: Option<String>,
    pub site_line: Option<i64>,
    pub callee: String,
    pub callee_path: String,
    pub resolution: String,
}

/// The line of a call: where it happens, unless it has no call site, and where
/// the callee stands.
pub open spec fn call_line(c: CallShown) -> Seq<char> {
    let place = match (c.site_path, c.site_line) {
        (Some(p), Some(l)) => " ("@ + behind_slash(p@) + ":"@ + signed_text(l as int) + ")"@,
        _ => Seq::empty(),
    };
    c.caller@ + place + " -> "@ + c.callee@ + " ["@ + behind_slash(c.callee_path@) + "] ("@
        + c.resolution@ + ")"@
}

/// The line of a call.
pub fn line_of_call(c: &CallShown) -> (r: String)
    ensures
        r@ == call_line(*c),
{
    let place = match (&c.site_path, c.site_line) {
        (Some(p), Some(l)) => {
            let t = cat3(" (", after_slash(p.as_str()).as_str(), ":");
            cat3(t.as_str(), signed(l).as_str(), ")")
        },
        _ => {
            let t = String::new();
            assert(t@ =~= Seq::<char>::empty());
            t
        },
    };
    let mut t = cat3(c.caller.as_str(), place.as_str(), " -> ");
    t = cat3(t.as_str(), c.callee.as_str(), " [");
    t = cat3(t.as_str(), after_slash(c.callee_path.as_str()).as_str(), "] (");
    cat3(t.as_str(), c.resolution.as_str(), ")")
}

/// Which way a graph is walked.
#[derive(Debug, Clone, Copy, PartialEq, Eq, Structural)]
pub enum Direction {
    Down,
    Up,
}

impl Direction {
    /// The direction of a name.
    pub open spec fn named(name: Seq<char>) -> Option<Direction> {
        if name == "down"@ {
            Some(Direction::Down)
        } else if name == "up"@ {
            Some(Direction::Up)
        } else {
            None
        }
    }

    /// The direction of a name.
    pub fn parse(name: &str) -> (r: Option<Direction>)
        ensures
            r == Direction::named(name@),
    {
        if str_eq(name, "down") {
            Some(Direction::Down)
        } else if str_eq(name, "up") {
            Some(Direction::Up)
        } else {
            None
        }
    }

    /// What a call graph shows in this direction.
    pub open spec fn call_word(self) -> Seq<char> {
        match self {
            Direction::Down => "callees"@,
            Direction::Up => "callers"@,
        }
    }

    /// What a call graph shows in this direction.
    pub fn word_for_calls(self) -> (r: String)
        ensures
            r@ == self.call_word(),
    {
        match self {
            Direction::Down => owned("callees"),
            Direction::Up => owned("callers"),
        }
    }

    /// What a flow graph shows in this direction.
    pub open spec fn flow_word(self) -> Seq<char> {
        match self {
            Direction::Down => "flows-to"@,
            Direction::Up => "flows-from"@,
        }
    }

    /// What a flow graph shows in this direction.
    pub fn word_for_flow(self) -> (r: String)
        ensures
            r@ == self.flow_word(),
    {
        match self {
            Direction::Down => owned("flows-to"),
            Direction::Up => owned("flows-from"),
        }
    }
}

/// What is wrong with how deep a walk is to go.
pub open spec fn depth_error(depth: u32) -> Option<Seq<char>> {
    if depth == 0 {
        Some("depth must be >= 1"@)
    } else {
        None
    }
}

/// What is wrong with how deep a walk is to go.
pub fn check_depth(depth: u32) -> (r: Result<(), String>)
    ensures
        match r {
            Ok(()) => depth_error(depth) is None,
            Err(e) => depth_error(depth) == Some(e@),
        },
{
    if depth == 0 {
        Err(owned("depth must be >= 1"))
    } else {
        Ok(())
    }
}

/// The title of a graph around something.
pub open spec fn graph_title(what: Seq<char>, start: Seq<char>, word: Seq<char>, depth: u32) -> Seq<
    char,
> {
    what + start + " ("@ + word + ", depth "@ + decimal_of(depth as nat) + "):"@
}

fn title(what: &str, start: &str, word: &str, depth: u32) -> (r: String)
    ensures
        r@ == graph_title(what@, start@, word@, depth),
{
    let mut t = cat3(what, start, " (");
    t = cat3(t.as_str(), word, ", depth ");
    cat3(t.as_str(), decimal(depth as u64).as_str(), "):")
}

/// The title of a call graph.
pub fn callgraph_title(start: &str, dir: Direction, depth: u32) -> (r: String)
    ensures
        r@ == graph_title("callgraph from "@, start@, dir.call_word(), depth),
{
    title("callgraph from ", start, dir.word_for_calls().as_str(), depth)
}

/// The title of a flow graph.
pub fn dataflow_title(symbol: &str, dir: Direction, depth: u32) -> (r: String)
    ensures
        r@ == graph_title("dataflow for "@, symbol@, dir.flow_word(), depth),
{
    title("dataflow for ", symbol, dir.word_for_flow().as_str(), depth)
}

/// How large a call graph is.
pub fn callgraph_size(nodes: usize, edges: usize) -> (r: String)
    ensures
        r@ == decimal_of(nodes as nat) + " functions, "@ + decimal_of(edges as nat) + " edges"@,
{
    let t = cat3(
        decimal(nodes as u64).as_str(),
        " functions, ",
        decimal(edges as u64).as_str(),
    );
    cat2(t.as_str(), " edges")
}

/// How large a flow graph is.
pub fn dataflow_size(nodes: usize, edges: usize) -> (r: String)
    ensures
        r@ == decimal_of(nodes as nat) + " flow nodes, "@ + decimal_of(edges as nat)
            + " flow edges"@,
{
    let t = cat3(
        decimal(nodes as u64).as_str(),
        " flow nodes, ",
        decimal(edges as u64).as_str(),
    );
    cat2(t.as_str(), " flow edges")
}

/// What a function of a call graph is called: its name, and where it stands.
pub open spec fn function_label(name: Seq<char>, detail: Seq<char>) -> Seq<char> {
    name + " ("@ + (if detail.len() == 0 {
        "?"@
    } else {
        detail
    }) + ")"@
}

/// What a function of a call graph is called.
pub fn label_of_function(name: &str, detail: &str) -> (r: String)
    ensures
        r@ == function_label(name@, detail@),
{
    let known = chars_of(detail).len() > 0;
    let place = if known {
        detail
    } else {
        "?"
    };
    cat2(cat3(name, " (", place).as_str(), ")")
}

/// What a node of a flow graph is called: its label, and its detail if it has
/// any.
pub open spec fn flow_label(label: Seq<char>, detail: Seq<char>) -> Seq<char> {
    if detail.len() == 0 {
        label
    } else {
        label + " ("@ + detail + ")"@
    }
}

/// What a node of a flow graph is called.
pub fn label_of_flow_node(label: &str, detail: &str) -> (r: String)
    ensures
        r@ == flow_label(label@, detail@),
{
    if chars_of(detail).len() > 0 {
        cat2(cat3(label, " (", detail).as_str(), ")")
    } else {
        owned(label)
    }
}

/// A symbol that a query has found.
pub struct Candidate {
    pub name: String,
    pub line: i64,
    pub col: i64,
}

/// Whether a place is inside the name of a declaration, or right behind it.
/// Columns count bytes.
pub open spec fn declared_at(c: Candidate, line: i64, col: i64) -> bool {
    c.line == line && col >= c.col && col <= c.col + byte_len(c.name@)
}

proof fn byte_len_grows(s: Seq<char>, n: int)
    requires
        0 <= n < s.len(),
    ensures
        byte_len(s.take(n + 1)) == byte_len(s.take(n)) + utf8_width(s[n]),
{
    assert(s.take(n + 1).drop_last() =~= s.take(n));
}

/// Whether a place is inside the name of a declaration, or right behind it.
pub fn is_declared_at(c: &Candidate, line: i64, col: i64) -> (r: bool)
    ensures
        r == declared_at(*c, line, col),
{
    let name = chars_of(c.name.as_str());
    let mut len: i128 = 0;
    let mut i: usize = 0;
    assert(name@.take(0) =~= Seq::<char>::empty());
    while i < name.len()
        invariant
            i <= name@.len(),
            0 <= len <= 4 * i,
            len == byte_len(name@.take(i as int)),
        decreases name@.len() - i,
    {
        proof {
            byte_len_grows(name@, i as int);
        }
        len = len + char_width(name[i]) as i128;
        i = i + 1;
    }
    assert(name@.take(i as int) =~= name@);
    c.line == line && col >= c.col && (col as i128) <= (c.col as i128) + len
}

/// The first `n` names without those that repeat the one before them.
pub open spec fn without_repeats(names: Seq<Seq<char>>, n: int) -> Seq<Seq<char>>
    decreases n,
{
    if n <= 0 {
        Seq::empty()
    } else {
        let before = without_repeats(names, n - 1);
        if n > 1 && names[n - 1] == names[n - 2] {
            before
        } else {
            before.push(names[n - 1])
        }
    }
}

/// The first `n` names in a row, with commas between them.
pub open spec fn listed(names: Seq<Seq<char>>, n: int) -> Seq<char>
    decreases n,
{
    if n <= 0 {
        Seq::empty()
    } else if n == 1 {
        names[0]
    } else {
        listed(names, n - 1) + ", "@ + names[n - 1]
    }
}

/// How many names a note lists.
pub const SHOWN_NAMES: usize = 5;

/// The names in a row; the first five of them, and how many more there are.
pub open spec fn shown(names: Seq<Seq<char>>) -> Seq<char> {
    if names.len() > SHOWN_NAMES {
        listed(names, SHOWN_NAMES as int) + " … (+"@ + decimal_of(
            (names.len() - SHOWN_NAMES) as nat,
        ) + " more)"@
    } else {
        listed(names, names.len() as int)
    }
}

fn list_names(names: &Vec<String>, n: usize) -> (r: String)
    requires
        n <= names@.len(),
    ensures
        r@ == listed(names_view(names@), n as int),
{
    let ghost all = names_view(names@);
    let mut out = String::new();
    let mut i: usize = 0;
    assert(out@ =~= listed(all, 0));
    while i < n
        invariant
            all == names_view(names@),
            i <= n <= names@.len(),
            out@ == listed(all, i as int),
        decreases n - i,
    {
        assert(all[i as int] == names@[i as int]@);
        if i == 0 {
            out = owned(names[0].as_str());
        } else {
            out = cat3(out.as_str(), ", ", names[i].as_str());
        }
        i = i + 1;
    }
    out
}

fn drop_repeats(names: &Vec<String>) -> (r: Vec<String>)
    ensures
        names_view(r@) == without_repeats(names_view(names@), names@.len() as int),
{
    let ghost all = names_view(names@);
    let mut out: Vec<String> = Vec::new();
    let mut i: usize = 0;
    assert(names_view(out@) =~= without_repeats(all, 0));
    while i < names.len()
        invariant
            all == names_view(names@),
            i <= names@.len(),
            names_view(out@) == without_repeats(all, i as int),
        decreases names@.len() - i,
    {
        assert(all[i as int] == names@[i as int]@);
        assert(i > 0 ==> all[i - 1] == names@[i - 1]@);
        if i == 0 || !str_eq(names[i].as_str(), names[i - 1].as_str()) {
            push_name(&mut out, owned(names[i].as_str()));
        }
        i = i + 1;
    }
    out
}

/// What is said of the symbol that was taken for a place: that it is not
/// exactly there, or that there are others.
pub open spec fn symbol_note(
    best: Candidate,
    best_text: Seq<char>,
    others: Seq<Seq<char>>,
    file: Seq<char>,
    line: i64,
    col: i64,
) -> Option<Seq<char>> {
    if !declared_at(best, line, col) {
        Some(
            "note: no declaration exactly at "@ + file + ":"@ + signed_text(line as int) + ":"@
                + signed_text(col as int) + "; using "@ + best_text,
        )
    } else if others.len() > 0 {
        Some(
            "note: "@ + decimal_of(others.len() + 1) + " candidates on this line; using "@
                + best.name@ + " (others: "@ + shown(without_repeats(others, others.len() as int))
                + ")"@,
        )
    } else {
        None
    }
}

/// What is said of the symbol that was taken for a place. `others` are the
/// names of the other candidates.
pub fn note_on_symbol(
    best: &Candidate,
    best_text: &str,
    others: &Vec<String>,
    file: &str,
    line: i64,
    col: i64,
) -> (r: Option<String>)
    requires
        others@.len() < usize::MAX,
    ensures
        match r {
            Some(t) => symbol_note(*best, best_text@, names_view(others@), file@, line, col)
                == Some(t@),
            None => symbol_note(*best, best_text@, names_view(others@), file@, line, col) is None,
        },
{
    if !is_declared_at(best, line, col) {
        let mut t = cat3("note: no declaration exactly at ", file, ":");
        t = cat3(t.as_str(), signed(line).as_str(), ":");
        t = cat3(t.as_str(), signed(col).as_str(), "; using ");
        Some(cat2(t.as_str(), best_text))
    } else if others.len() > 0 {
        let names = drop_repeats(others);
        assert(names_view(names@).len() == names@.len());
        let list = if names.len() > SHOWN_NAMES {
            let first = list_names(&names, SHOWN_NAMES);
            cat2(
                cat3(
                    first.as_str(),
                    " … (+",
                    decimal((names.len() - SHOWN_NAMES) as u64).as_str(),
                ).as_str(),
                " more)",
            )
        } else {
            list_names(&names, names.len())
        };
        let mut t = cat3(
            "note: ",
            decimal(others.len() as u64 + 1).as_str(),
            " candidates on this line; using ",
        );
        t = cat3(t.as_str(), best.name.as_str(), " (others: ");
        Some(cat3(t.as_str(), list.as_str(), ")"))
    } else {
        None
    }
}

} // verus!
