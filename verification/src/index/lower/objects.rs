//! The objects that members are called on, the classes that own members, and
//! what a source that cannot be read contributes.

use crate::index::lower::calls::class_ending;
use crate::index::lower::members::{has_direct_call, member_calls_reach_their_targets};
use crate::index::lower::state::LowerV;
use crate::index::lower::unit::{failed_unit, unit_start};
use crate::index::names::cuts;
use crate::ir::program::{last_segment, MethodV};
use crate::index::syntax::{NodeKind, NodeV};
use crate::ir::diagnostic::DiagnosticSeverity;
use crate::ir::ids::{FnId, TypeId};
use crate::ir::layout::types_have_one_entry;
use crate::ir::symbol::StorageClass;
use crate::ir::types::DescV;
use crate::preproc::line_map::LineMapV;
use crate::text::begins;
use vstd::prelude::*;

verus! {

/// A function of a class has one more parameter before its own: the object that it
/// is called on, a pointer to the class. Other functions have none.
pub proof fn members_have_their_object(s: LowerV, n: NodeV, f: FnId, cls: Seq<char>)
    requires
        s.p.types.types.len() < u32::MAX,
    ensures
        ({
            let (t, params) = s.with_this(n, f, Some(cls));
            let vars = t.p.symbols.variables;
            &&& vars.len() == s.p.symbols.variables.len() + 1
            &&& vars.drop_last() == s.p.symbols.variables
            &&& params == seq![vars.last().id]
            &&& vars.last().name == "this"@
            &&& vars.last().fn_id == Some(f)
            &&& vars.last().param_index == Some(0u32)
            &&& vars.last().storage == StorageClass::Param
            &&& vars.last().is_pointer
            &&& t.p.types.desc(vars.last().type_id) matches Some(DescV::Ptr(inner))
            &&& *inner matches DescV::Struct { name, .. }
            &&& name == cls
        }),
        s.with_this(n, f, None).0 == s,
        s.with_this(n, f, None).1.len() == 0,
{
    let d = DescV::Ptr(Box::new(DescV::Struct { name: cls, fields: Seq::empty() }));
    types_have_one_entry(s.p.types, d);
    let (t, params) = s.with_this(n, f, Some(cls));
    assert(t.p.symbols.variables.drop_last() =~= s.p.symbols.variables);
}

/// A qualified name belongs to the class that its longest prefix names: every
/// longer prefix names none.
pub proof fn names_belong_to_their_longest_prefix(s: LowerV, name: Seq<char>, k: int)
    requires
        0 <= k <= cuts(name, 0).len(),
    ensures
        match s.owner_class(name, k) {
            Some(cls) => exists|j: int|
                0 <= j < k && cls == name.take(#[trigger] cuts(name, 0)[j]) && s.tagged(cls) is Some
                    && forall|i: int|
                    j < i < k ==> s.tagged(name.take(#[trigger] cuts(name, 0)[i])) is None,
            None => forall|i: int|
                0 <= i < k ==> s.tagged(name.take(#[trigger] cuts(name, 0)[i])) is None,
        },
    decreases k,
{
    if k > 0 {
        let at = cuts(name, 0);
        if s.tagged(name.take(at[k - 1])) is None {
            names_belong_to_their_longest_prefix(s, name, k - 1);
        } else {
            assert(s.owner_class(name, k) == Some(name.take(at[k - 1])));
        }
    }
}

/// A member initializer names the first of the classes whose last part is its name.
pub proof fn initializers_name_their_class(classes: Seq<Seq<char>>, name: Seq<char>, i: int)
    requires
        0 <= i <= classes.len(),
    ensures
        match class_ending(classes, name, i) {
            Some(cls) => exists|j: int|
                i <= j < classes.len() && cls == #[trigger] classes[j] && last_segment(cls) == name
                    && forall|h: int|
                    i <= h < j ==> last_segment(#[trigger] classes[h]) != name,
            None => forall|h: int|
                i <= h < classes.len() ==> last_segment(#[trigger] classes[h]) != name,
        },
    decreases classes.len() - i,
{
    if i < classes.len() && last_segment(classes[i]) != name {
        initializers_name_their_class(classes, name, i + 1);
    } else if i < classes.len() {
        assert(class_ending(classes, name, i) == Some(classes[i]));
    }
}

/// A source that cannot be read contributes one error that says why, and nothing
/// to the program.
pub proof fn failures_are_reported(path: Seq<char>, message: Seq<char>)
    ensures
        ({
            let u = failed_unit(path, message);
            &&& u.path == path
            &&& u.diagnostics.len() == 1
            &&& u.diagnostics[0].message == message
            &&& u.diagnostics[0].severity == DiagnosticSeverity::Error
            &&& u.functions.len() == 0
            &&& u.variables.len() == 0
            &&& u.call_sites.len() == 0
            &&& u.flow.len() == 0
        }),
{
}

/// A source with syntax errors is lowered with a warning that names it; one without
/// starts with no report. Either way the source is the first file.
pub proof fn syntax_errors_are_reported(
    root: Seq<char>,
    path: Seq<char>,
    primary: Seq<char>,
    src: Seq<char>,
    lines: LineMapV,
)
    ensures
        ({
            let bad = unit_start(root, path, primary, src, lines, true);
            let good = unit_start(root, path, primary, src, lines, false);
            &&& good.p.diagnostics.len() == 0
            &&& bad.p.diagnostics.len() == 1
            &&& bad.p.diagnostics[0].severity == DiagnosticSeverity::Warning
            &&& bad.p.diagnostics[0].message.skip("parse errors in "@.len() as int) == path
            &&& good.p.symbols.files == seq![(good.file, path)]
            &&& bad.p.symbols == good.p.symbols
            &&& bad.src == src
            &&& good.src == src
            &&& good.current_fn is None
            &&& good.p.flow.len() == 0
        }),
{
    let bad = unit_start(root, path, primary, src, lines, true);
    let good = unit_start(root, path, primary, src, lines, false);
    assert(bad.p.diagnostics[0].message =~= "parse errors in "@ + path);
    assert(("parse errors in "@ + path).skip("parse errors in "@.len() as int) =~= path);
    assert(good.p.symbols.files =~= seq![(good.file, path)]);
}

/// A variable that is declared with arguments in parentheses is constructed: each
/// constructor of its class is called with the arguments, or the call is noted
/// where the class has none.
pub proof fn variables_are_constructed(
    s: LowerV,
    at: NodeV,
    t: TypeId,
    list: NodeV,
    f: FnId,
    cls: Seq<char>,
    fields: Seq<(Seq<char>, DescV)>,
    g: FnId,
)
    requires
        s.is_cpp,
        s.current_fn == Some(f),
        at.kind == NodeKind::InitDeclarator,
        list.kind == NodeKind::ArgumentList,
        s.p.types.desc(t) == Some((DescV::Struct { name: cls, fields })),
        cls.len() > 0,
        !begins(cls, "anon_"@),
    ensures
        ({
            let (q, span) = s.placed(at);
            let (u, args) = q.after_all_args(Some(list));
            let done = s.after_construction(at, t, Some(list));
            &&& u.p.member_targets(cls, MethodV::Ctor).contains(g) ==> has_direct_call(
                done,
                f,
                g,
                args,
                span,
            )
            &&& u.p.member_targets(cls, MethodV::Ctor).len() == 0
                ==> done.p.symbols.call_sites.len() == u.p.symbols.call_sites.len() + 1
        }),
{
    let (q, span) = s.placed(at);
    let (u, args) = q.after_all_args(Some(list));
    member_calls_reach_their_targets(u, f, cls, MethodV::Ctor, args, span, g);
}

} // verus!
