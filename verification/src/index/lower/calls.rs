//! Calls: of functions, through pointers, and of members of classes.

use crate::index::lower::exprs::field_called;
use crate::index::lower::state::{opt_view, Lower, LowerV};
use crate::index::names::{
    is_likely_macro_callee, normal_name, normalize_qualified, shouted, strip_template_args,
    without_args,
};
use crate::index::syntax::{
    child_field, child_kind, children_viewed, node_text, text_of, FieldName, NodeKind, NodeV,
    SyntaxNode,
};
use crate::ir::ids::{CallSiteId, FnId, Span, TypeId, VarId};
use crate::ir::program::{
    base_name, direct_bases, last_segment, member_name, MethodKind, MethodV, Program, ProgramV,
};
use crate::ir::symbol::{count_up, next_number, CallSite, SiteV, SymbolsV};
use crate::ir::types::{DescV, TypeDesc, TypeKind};
use crate::text::{
    add_names, cat3, contains_char, decimal, decimal_of, names_view, owned, push_name, str_eq,
    take_push, with_names,
};
use vstd::prelude::*;

verus! {

broadcast use children_viewed;

/// The arguments of a call: which variable, and which function, is at which
/// position.
#[verifier::ext_equal]
pub struct ArgsV {
    pub vars: Seq<(u32, VarId)>,
    pub fns: Seq<(u32, FnId)>,
    /// How many arguments there are.
    pub count: u32,
}

/// No arguments.
pub open spec fn no_args() -> ArgsV {
    ArgsV { vars: Seq::empty(), fns: Seq::empty(), count: 0 }
}

impl ArgsV {
    pub open spec fn with_var(self, v: VarId) -> ArgsV {
        ArgsV { vars: self.vars.push((self.count, v)), count: next_number(self.count), ..self }
    }

    pub open spec fn with_fn(self, f: FnId) -> ArgsV {
        ArgsV { fns: self.fns.push((self.count, f)), count: next_number(self.count), ..self }
    }

    /// With an argument that is neither a variable nor a function.
    pub open spec fn with_other(self) -> ArgsV {
        ArgsV { count: next_number(self.count), ..self }
    }
}

/// The arguments of a call.
pub struct CallArgs {
    pub vars: Vec<(u32, VarId)>,
    pub fns: Vec<(u32, FnId)>,
    pub count: u32,
}

impl View for CallArgs {
    type V = ArgsV;

    open spec fn view(&self) -> ArgsV {
        ArgsV { vars: self.vars@, fns: self.fns@, count: self.count }
    }
}

impl CallArgs {
    pub fn new() -> (r: CallArgs)
        ensures
            r@ == no_args(),
    {
        let r = CallArgs { vars: Vec::new(), fns: Vec::new(), count: 0 };
        assert(r@ =~= no_args());
        r
    }

    fn add_var(&mut self, v: VarId)
        ensures
            final(self)@ == old(self)@.with_var(v),
    {
        self.vars.push((self.count, v));
        self.count = count_up(self.count);
    }

    fn add_fn(&mut self, f: FnId)
        ensures
            final(self)@ == old(self)@.with_fn(f),
    {
        self.fns.push((self.count, f));
        self.count = count_up(self.count);
    }

    fn add_other(&mut self)
        ensures
            final(self)@ == old(self)@.with_other(),
    {
        self.count = count_up(self.count);
    }
}

fn clone_var_args(args: &Vec<(u32, VarId)>) -> (r: Vec<(u32, VarId)>)
    ensures
        r@ == args@,
{
    let mut out: Vec<(u32, VarId)> = Vec::new();
    let mut i: usize = 0;
    while i < args.len()
        invariant
            i <= args@.len(),
            out@ == args@.take(i as int),
        decreases args@.len() - i,
    {
        out.push(args[i]);
        proof {
            take_push(args@, i as int);
        }
        i = i + 1;
    }
    assert(out@ =~= args@);
    out
}

fn clone_fn_args(args: &Vec<(u32, FnId)>) -> (r: Vec<(u32, FnId)>)
    ensures
        r@ == args@,
{
    let mut out: Vec<(u32, FnId)> = Vec::new();
    let mut i: usize = 0;
    while i < args.len()
        invariant
            i <= args@.len(),
            out@ == args@.take(i as int),
        decreases args@.len() - i,
    {
        out.push(args[i]);
        proof {
            take_push(args@, i as int);
        }
        i = i + 1;
    }
    assert(out@ =~= args@);
    out
}

/// Whether a class is a base of another.
pub open spec fn is_base(edges: Seq<(Seq<char>, Seq<char>)>, cls: Seq<char>) -> bool {
    exists|j: int| 0 <= j < edges.len() && (#[trigger] edges[j]).1 == cls
}

/// Every class of `seen` but the first is a base, and none is there twice.
pub open spec fn reached(edges: Seq<(Seq<char>, Seq<char>)>, seen: Seq<Seq<char>>) -> bool {
    &&& seen.no_duplicates()
    &&& seen.len() > 0
    &&& forall|k: int| 1 <= k < seen.len() ==> is_base(edges, #[trigger] seen[k])
}

pub proof fn reached_bound(edges: Seq<(Seq<char>, Seq<char>)>, seen: Seq<Seq<char>>)
    requires
        reached(edges, seen),
    ensures
        seen.len() <= edges.len() + 1,
{
    let bases = edges.map_values(|e: (Seq<char>, Seq<char>)| e.1);
    let all = bases.push(seen[0]);
    seen.unique_seq_to_set();
    all.lemma_cardinality_of_set();
    assert(seen.to_set().subset_of(all.to_set())) by {
        assert forall|c: Seq<char>| seen.to_set().contains(c) implies all.to_set().contains(c) by {
            let k = choose|k: int| 0 <= k < seen.len() && seen[k] == c;
            if k == 0 {
                assert(all[edges.len() as int] == c);
            } else {
                assert(is_base(edges, seen[k]));
                let j = choose|j: int| 0 <= j < edges.len() && (#[trigger] edges[j]).1 == c;
                assert(bases[j] == c);
                assert(all[j] == c);
            }
        }
    }
    vstd::set_lib::lemma_len_subset(seen.to_set(), all.to_set());
}

pub proof fn reached_more(
    edges: Seq<(Seq<char>, Seq<char>)>,
    seen: Seq<Seq<char>>,
    more: Seq<Seq<char>>,
)
    requires
        reached(edges, seen),
        forall|k: int| 0 <= k < more.len() ==> is_base(edges, #[trigger] more[k]),
    ensures
        reached(edges, with_names(seen, more)),
        with_names(seen, more).len() >= seen.len(),
    decreases more.len(),
{
    if more.len() > 0 {
        assert forall|k: int| 0 <= k < more.drop_last().len() implies is_base(
            edges,
            #[trigger] more.drop_last()[k],
        ) by {
            assert(is_base(edges, more[k]));
        }
        reached_more(edges, seen, more.drop_last());
        assert(is_base(edges, more[more.len() - 1]));
    }
}

pub proof fn bases_are_bases(edges: Seq<(Seq<char>, Seq<char>)>, cls: Seq<char>, n: int)
    requires
        n <= edges.len(),
    ensures
        forall|k: int|
            0 <= k < direct_bases(edges, cls, n).len() ==> is_base(
                edges,
                #[trigger] direct_bases(edges, cls, n)[k],
            ),
    decreases n,
{
    if n > 0 {
        bases_are_bases(edges, cls, n - 1);
        assert(is_base(edges, edges[n - 1].1));
        let before = direct_bases(edges, cls, n - 1);
        assert forall|k: int| 0 <= k < direct_bases(edges, cls, n).len() implies is_base(
            edges,
            #[trigger] direct_bases(edges, cls, n)[k],
        ) by {
            if k < before.len() {
                assert(is_base(edges, before[k]));
            }
        }
    }
}

impl ProgramV {
    /// Whether one of the functions is virtual.
    pub open spec fn any_virtual(self, fns: Seq<FnId>) -> bool {
        exists|j: int|
            0 <= j < fns.len() && (self.symbols.function(#[trigger] fns[j]) matches Some(f)
                && f.is_virtual)
    }

    /// The functions that a member on a class may be: those of the nearest
    /// class above that declares it, from the class at `i` on, with what
    /// overrides them where they are virtual. If no class above declares it,
    /// those of the classes below.
    pub open spec fn upward(
        self,
        cls: Seq<char>,
        kind: MethodV,
        seen: Seq<Seq<char>>,
        i: int,
    ) -> Seq<FnId>
        decreases self.inheritance.len() + 1 - i,
    {
        if i < 0 || i >= seen.len() || i > self.inheritance.len() {
            self.method_targets(cls, kind)
        } else {
            let own = self.symbols.external(member_name(kind, seen[i]));
            if own.len() > 0 {
                if kind is Dtor || self.any_virtual(own) {
                    self.method_targets(seen[i], kind)
                } else {
                    own
                }
            } else {
                self.upward(
                    cls,
                    kind,
                    with_names(
                        seen,
                        direct_bases(self.inheritance, seen[i], self.inheritance.len() as int),
                    ),
                    i + 1,
                )
            }
        }
    }

    /// The functions that a member on a class may be.
    pub open spec fn member_targets(self, cls: Seq<char>, kind: MethodV) -> Seq<FnId> {
        self.upward(cls, kind, seq![cls], 0)
    }
}

fn has_virtual(program: &Program, fns: &Vec<FnId>) -> (r: bool)
    ensures
        r == program@.any_virtual(fns@),
{
    let mut i: usize = 0;
    while i < fns.len()
        invariant
            i <= fns@.len(),
            forall|j: int|
                0 <= j < i ==> !(program@.symbols.function(#[trigger] fns@[j]) matches Some(f)
                    && f.is_virtual),
        decreases fns@.len() - i,
    {
        if let Some(f) = program.symbols.function_by_id(fns[i]) {
            if f.is_virtual {
                assert(program@.symbols.function(fns@[i as int]) is Some);
                return true;
            }
        }
        i = i + 1;
    }
    false
}

/// The functions that a member on a class may be.
pub fn member_targets_upward(program: &Program, cls: &str, kind: &MethodKind) -> (r: Vec<FnId>)
    ensures
        r@ == program@.member_targets(cls@, kind@),
{
    let ghost edges = program@.inheritance;
    let mut seen: Vec<String> = Vec::new();
    push_name(&mut seen, owned(cls));
    assert(names_view(seen@) =~= seq![cls@]);
    let mut i: usize = 0;
    while i < seen.len()
        invariant
            edges == program@.inheritance,
            i <= seen@.len(),
            reached(edges, names_view(seen@)),
            program@.upward(cls@, kind@, names_view(seen@), i as int) == program@.member_targets(
                cls@,
                kind@,
            ),
        decreases edges.len() + 1 - i,
    {
        let ghost before = names_view(seen@);
        proof {
            reached_bound(edges, before);
        }
        let cur = seen[i].clone();
        assert(before[i as int] == cur@);
        let full = kind.name_on(cur.as_str());
        let own = program.symbols.functions_named(full.as_str());
        if own.len() > 0 {
            if kind.is_destructor() || has_virtual(program, &own) {
                return program.method_targets(cur.as_str(), kind);
            }
            return own;
        }
        let bases = program.bases_of(cur.as_str());
        proof {
            bases_are_bases(edges, cur@, edges.len() as int);
            reached_more(edges, before, names_view(bases@));
        }
        add_names(&mut seen, &bases);
        i = i + 1;
    }
    proof {
        reached_bound(edges, names_view(seen@));
    }
    program.method_targets(cls, kind)
}

/// Whether a field access is one: with `.` or `->`.
pub open spec fn is_member_access(n: NodeV) -> bool {
    child_kind(n, NodeKind::Dot) is Some || child_kind(n, NodeKind::Arrow) is Some
}

/// Those of the first `k` functions that have as many parameters as there are
/// arguments.
pub open spec fn fitting(symbols: SymbolsV, fns: Seq<FnId>, args: ArgsV, k: int) -> Seq<FnId>
    decreases k,
{
    if k <= 0 {
        Seq::empty()
    } else {
        let before = fitting(symbols, fns, args, k - 1);
        match symbols.function(fns[k - 1]) {
            Some(f) => if f.params.len() == args.count {
                before.push(fns[k - 1])
            } else {
                before
            },
            None => before,
        }
    }
}

/// The first child from `i` on that names what a member initializer is for.
pub open spec fn initialized_node(n: NodeV, i: int) -> Option<NodeV>
    decreases n.children.len() - i,
{
    if i < 0 || i >= n.children.len() {
        None
    } else if n.children[i].kind == NodeKind::FieldIdentifier || n.children[i].kind
        == NodeKind::Identifier {
        Some(n.children[i])
    } else {
        initialized_node(n, i + 1)
    }
}

fn find_initialized(n: &SyntaxNode) -> (r: Option<&SyntaxNode>)
    ensures
        match r {
            Some(c) => initialized_node(n@, 0) == Some(c@),
            None => initialized_node(n@, 0) is None,
        },
{
    let mut i: usize = 0;
    while i < n.children.len()
        invariant
            i <= n@.children.len(),
            initialized_node(n@, i as int) == initialized_node(n@, 0),
        decreases n@.children.len() - i,
    {
        let c = &n.children[i];
        if c.kind == NodeKind::FieldIdentifier || c.kind == NodeKind::Identifier {
            return Some(c);
        }
        i = i + 1;
    }
    None
}

/// The first class from `i` on whose last part is a name.
pub open spec fn class_ending(classes: Seq<Seq<char>>, name: Seq<char>, i: int) -> Option<Seq<char>>
    decreases classes.len() - i,
{
    if i < 0 || i >= classes.len() {
        None
    } else if last_segment(classes[i]) == name {
        Some(classes[i])
    } else {
        class_ending(classes, name, i + 1)
    }
}

impl LowerV {
    /// After the first `k` parts of a list of arguments, and the arguments.
    pub open spec fn after_args(self, n: NodeV, k: int) -> (LowerV, ArgsV)
        decreases k,
    {
        if k <= 0 {
            (self, no_args())
        } else {
            let (s, args) = self.after_args(n, k - 1);
            s.after_arg(n.children[k - 1], args)
        }
    }

    /// After one more part of a list of arguments.
    pub open spec fn after_arg(self, arg: NodeV, args: ArgsV) -> (LowerV, ArgsV) {
        if arg.kind == NodeKind::OpenParen || arg.kind == NodeKind::CloseParen || arg.kind
            == NodeKind::Comma {
            (self, args)
        } else {
            match self.value_var(arg) {
                Some(v) => if arg.kind == NodeKind::FieldExpression || arg.kind
                    == NodeKind::SubscriptExpression {
                    let temp = self.next_var();
                    match self.with_value_temp(arg).moved_into(arg, temp) {
                        (s, Some(flow)) => (s.with_flow(flow), args.with_var(temp)),
                        (s, None) => (s, args.with_var(v)),
                    }
                } else {
                    (self, args.with_var(v))
                },
                None => match self.fn_argument(arg) {
                    Some(f) => (self, args.with_fn(f)),
                    None => (self, args.with_other()),
                },
            }
        }
    }

    /// After the arguments of a call, where it has any.
    pub open spec fn after_all_args(self, n: Option<NodeV>) -> (LowerV, ArgsV) {
        match n {
            Some(list) => self.after_args(list, list.children.len() as int),
            None => (self, no_args()),
        }
    }

    /// With a call.
    pub open spec fn with_site(
        self,
        caller: FnId,
        name: Seq<char>,
        callee_var: Option<VarId>,
        callee_fn_id: Option<FnId>,
        args: ArgsV,
        span: Span,
        is_direct: bool,
    ) -> LowerV {
        let s = self.p.symbols;
        self.with_symbols(
            SymbolsV {
                next_call: next_number(s.next_call),
                call_sites: s.call_sites.push(
                    SiteV {
                        id: CallSiteId(s.next_call),
                        caller,
                        callee_name: name,
                        callee_var,
                        callee_fn_id,
                        var_args: args.vars,
                        fn_args: args.fns,
                        addr_of_member_args: Seq::empty(),
                        span,
                        is_direct,
                        receiver_class: None,
                        return_dst: None,
                    },
                ),
                ..s
            },
        )
    }

    /// With a call of each of the first `k` functions that a member may be.
    pub open spec fn with_member_sites(
        self,
        caller: FnId,
        display: Seq<char>,
        targets: Seq<FnId>,
        args: ArgsV,
        span: Span,
        k: int,
    ) -> LowerV
        decreases k,
    {
        if k <= 0 {
            self
        } else {
            let s = self.with_member_sites(caller, display, targets, args, span, k - 1);
            let name = match self.p.symbols.function(targets[k - 1]) {
                Some(f) => f.name,
                None => display,
            };
            s.with_site(caller, name, None, Some(targets[k - 1]), args, span, true)
        }
    }

    /// With the calls that a call of a member may be.
    pub open spec fn with_member_call(
        self,
        caller: FnId,
        cls: Seq<char>,
        kind: MethodV,
        args: ArgsV,
        span: Span,
    ) -> LowerV {
        let targets = self.p.member_targets(cls, kind);
        let display = member_name(kind, cls);
        if targets.len() == 0 {
            self.with_site(caller, display, None, None, args, span, false)
        } else {
            self.with_member_sites(caller, display, targets, args, span, targets.len() as int)
        }
    }

    /// With a call of each of the first `k` functions that a name may mean.
    pub open spec fn with_named_sites(
        self,
        caller: FnId,
        name: Seq<char>,
        callee_var: Option<VarId>,
        chosen: Seq<FnId>,
        args: ArgsV,
        span: Span,
        k: int,
    ) -> LowerV
        decreases k,
    {
        if k <= 0 {
            self
        } else {
            let s = self.with_named_sites(caller, name, callee_var, chosen, args, span, k - 1);
            let t = chosen[k - 1];
            let shown = if t != chosen[0] {
                name + "::"@ + decimal_of(t.0 as nat)
            } else {
                name
            };
            s.with_site(caller, shown, callee_var, Some(t), args, span, true)
        }
    }

    /// The functions that a call by name may mean. In C++ those with as many
    /// parameters as there are arguments come before the others.
    pub open spec fn chosen(self, name: Seq<char>, callee_var: Option<VarId>, args: ArgsV) -> Seq<
        FnId,
    > {
        if !self.is_cpp {
            match self.named_fn(name) {
                Some(f) => seq![f],
                None => Seq::empty(),
            }
        } else if callee_var is None {
            let all = self.p.symbols.candidates(name, Some(self.file));
            let fit = fitting(self.p.symbols, all, args, all.len() as int);
            if fit.len() == 0 {
                all
            } else {
                fit
            }
        } else {
            Seq::empty()
        }
    }

    /// The class and the kind of the member that is called, where the call is
    /// one of a member and the class is known.
    pub open spec fn member_called(self, func: NodeV) -> Option<(Seq<char>, MethodV)> {
        if self.is_cpp && func.kind == NodeKind::FieldExpression && is_member_access(func) {
            match (child_field(func, FieldName::Field), child_field(func, FieldName::Argument)) {
                (Some(field), Some(recv)) => if field.kind == NodeKind::FieldIdentifier
                    || field.kind == NodeKind::DestructorName || field.kind
                    == NodeKind::TemplateType {
                    match self.static_class(recv) {
                        Some(cls) => Some(
                            (
                                cls,
                                if field.kind == NodeKind::DestructorName {
                                    MethodV::Dtor
                                } else {
                                    MethodV::Named(
                                        without_args(normal_name(text_of(self.src, field))),
                                    )
                                },
                            ),
                        ),
                        None => None,
                    }
                } else {
                    None
                },
                _ => None,
            }
        } else {
            None
        }
    }

    /// After a call.
    pub open spec fn after_call(self, n: NodeV, caller: FnId) -> LowerV {
        match child_field(n, FieldName::Function) {
            Some(func) => {
                let (s, span) = self.placed(n);
                match s.member_called(func) {
                    Some((cls, kind)) => {
                        let (t, args) = s.after_all_args(child_field(n, FieldName::Arguments));
                        t.with_member_call(caller, cls, kind, args, span)
                    },
                    None => s.after_plain_call(n, func, caller, span),
                }
            },
            None => self,
        }
    }

    /// After a call of what an expression names.
    pub open spec fn after_plain_call(
        self,
        n: NodeV,
        func: NodeV,
        caller: FnId,
        span: Span,
    ) -> LowerV {
        let (s, (name, sure, callee_var)) = self.loaded_callee(func);
        if name.contains('"') {
            s
        } else {
            let is_direct = sure || (callee_var is None && s.named_fn(name) is Some);
            if !is_direct && shouted(name) {
                s
            } else {
                let (t, args) = s.after_all_args(child_field(n, FieldName::Arguments));
                let chosen = t.chosen(name, callee_var, args);
                if chosen.len() == 0 {
                    t.with_site(caller, name, callee_var, None, args, span, is_direct)
                } else {
                    t.with_named_sites(
                        caller,
                        name,
                        callee_var,
                        chosen,
                        args,
                        span,
                        chosen.len() as int,
                    )
                }
            }
        }
    }

    /// The class that a member initializer makes: a direct base, or the class
    /// of a field.
    pub open spec fn initialized_class(
        self,
        fi: NodeV,
        bases: Seq<Seq<char>>,
        cls_type: Option<TypeId>,
    ) -> Option<Seq<char>> {
        match initialized_node(fi, 0) {
            Some(m) => {
                let name = normal_name(text_of(self.src, m));
                match class_ending(bases, name, 0) {
                    Some(c) => Some(c),
                    None => match cls_type {
                        Some(t) => match field_called(self.p.types, t, name) {
                            Some((id, f)) => match self.p.types.desc(f.type_id) {
                                Some(DescV::Struct { name, fields }) => Some(name),
                                _ => None,
                            },
                            None => None,
                        },
                        None => None,
                    },
                }
            },
            None => None,
        }
    }

    /// After the first `k` of the member initializers of a constructor.
    pub open spec fn after_initializers(
        self,
        n: NodeV,
        bases: Seq<Seq<char>>,
        cls_type: Option<TypeId>,
        caller: FnId,
        k: int,
    ) -> LowerV
        decreases k,
    {
        if k <= 0 {
            self
        } else {
            let s = self.after_initializers(n, bases, cls_type, caller, k - 1);
            let fi = n.children[k - 1];
            if fi.kind == NodeKind::FieldInitializer {
                match s.initialized_class(fi, bases, cls_type) {
                    Some(cls) => {
                        let (t, span) = s.placed(fi);
                        let (u, args) = t.after_all_args(child_kind(fi, NodeKind::ArgumentList));
                        u.with_member_call(caller, cls, MethodV::Ctor, args, span)
                    },
                    None => s,
                }
            } else {
                s
            }
        }
    }

    /// After the member initializers of a constructor.
    pub open spec fn after_initializer_list(self, n: NodeV, caller: FnId) -> LowerV {
        match self.class {
            Some(cls) => self.after_initializers(
                n,
                direct_bases(self.p.inheritance, cls, self.p.inheritance.len() as int),
                self.tagged(cls),
                caller,
                n.children.len() as int,
            ),
            None => self,
        }
    }
}

fn find_class_ending(classes: &Vec<String>, name: &str) -> (r: Option<String>)
    ensures
        opt_view(r) == class_ending(names_view(classes@), name@, 0),
{
    let mut i: usize = 0;
    while i < classes.len()
        invariant
            i <= classes@.len(),
            class_ending(names_view(classes@), name@, i as int) == class_ending(
                names_view(classes@),
                name@,
                0,
            ),
        decreases classes@.len() - i,
    {
        assert(names_view(classes@)[i as int] == classes@[i as int]@);
        let last = base_name(classes[i].as_str());
        if str_eq(last.as_str(), name) {
            return Some(classes[i].clone());
        }
        i = i + 1;
    }
    None
}

impl Lower {
    fn collect_arg(&mut self, arg: &SyntaxNode, args: &mut CallArgs)
        requires
            old(self).wf(),
        ensures
            final(self).wf(),
            (final(self)@, final(args)@) == old(self)@.after_arg(arg@, old(args)@),
    {
        if arg.kind == NodeKind::OpenParen || arg.kind == NodeKind::CloseParen || arg.kind
            == NodeKind::Comma {
            return ;
        }
        match self.resolve_expr_var(arg) {
            Some(v) => {
                if arg.kind == NodeKind::FieldExpression || arg.kind
                    == NodeKind::SubscriptExpression {
                    let temp = self.alloc_ret_temp(arg);
                    match self.expr_to_rhs_flow(arg, temp) {
                        Some(flow) => {
                            self.add_flow(flow);
                            args.add_var(temp);
                        },
                        None => {
                            args.add_var(v);
                        },
                    }
                } else {
                    args.add_var(v);
                }
            },
            None => {
                match self.resolve_call_fn_arg(arg) {
                    Some(f) => {
                        args.add_fn(f);
                    },
                    None => {
                        args.add_other();
                    },
                }
            },
        }
    }

    /// The arguments of a call.
    pub fn collect_call_args(&mut self, list: Option<&SyntaxNode>) -> (r: CallArgs)
        requires
            old(self).wf(),
        ensures
            final(self).wf(),
            (final(self)@, r@) == old(self)@.after_all_args(
                match list {
                    Some(n) => Some(n@),
                    None => None,
                },
            ),
    {
        let mut args = CallArgs::new();
        if let Some(n) = list {
            let ghost start = self@;
            let mut i: usize = 0;
            while i < n.children.len()
                invariant
                    i <= n@.children.len(),
                    self.wf(),
                    (self@, args@) == start.after_args(n@, i as int),
                decreases n@.children.len() - i,
            {
                self.collect_arg(&n.children[i], &mut args);
                i = i + 1;
            }
        }
        args
    }

    fn add_site(
        &mut self,
        caller: FnId,
        name: String,
        callee_var: Option<VarId>,
        callee_fn_id: Option<FnId>,
        args: &CallArgs,
        span: Span,
        is_direct: bool,
    )
        requires
            old(self).wf(),
        ensures
            final(self).wf(),
            final(self)@ == old(self)@.with_site(
                caller,
                name@,
                callee_var,
                callee_fn_id,
                args@,
                span,
                is_direct,
            ),
    {
        let id = self.program.symbols.alloc_call_id();
        let none: Vec<u32> = Vec::new();
        assert(none@ =~= Seq::empty());
        self.program.symbols.add_call_site(
            CallSite {
                id,
                caller,
                callee_name: name,
                callee_var,
                callee_fn_id,
                var_args: clone_var_args(&args.vars),
                fn_args: clone_fn_args(&args.fns),
                addr_of_member_args: none,
                span,
                is_direct,
                receiver_class: None,
                return_dst: None,
            },
        );
    }

    /// Notes the calls that a call of a member may be.
    pub fn emit_member_sites(
        &mut self,
        caller: FnId,
        cls: &str,
        kind: &MethodKind,
        args: &CallArgs,
        span: Span,
    )
        requires
            old(self).wf(),
        ensures
            final(self).wf(),
            final(self)@ == old(self)@.with_member_call(caller, cls@, kind@, args@, span),
    {
        let targets = member_targets_upward(&self.program, cls, kind);
        let display = kind.name_on(cls);
        if targets.len() == 0 {
            self.add_site(caller, display, None, None, args, span, false);
            return ;
        }
        let ghost start = self@;
        let mut i: usize = 0;
        while i < targets.len()
            invariant
                i <= targets@.len(),
                self.wf(),
                self@ == start.with_member_sites(
                    caller,
                    display@,
                    targets@,
                    args@,
                    span,
                    i as int,
                ),
                self@.p.symbols.functions == start.p.symbols.functions,
            decreases targets@.len() - i,
        {
            let name = match self.program.symbols.function_by_id(targets[i]) {
                Some(f) => f.name.clone(),
                None => display.clone(),
            };
            self.add_site(caller, name, None, Some(targets[i]), args, span, true);
            i = i + 1;
        }
    }

    fn find_fitting(&self, fns: &Vec<FnId>, args: &CallArgs) -> (r: Vec<FnId>)
        ensures
            r@ == fitting(self@.p.symbols, fns@, args@, fns@.len() as int),
    {
        let mut out: Vec<FnId> = Vec::new();
        let mut i: usize = 0;
        assert(out@ =~= Seq::empty());
        while i < fns.len()
            invariant
                i <= fns@.len(),
                out@ == fitting(self@.p.symbols, fns@, args@, i as int),
            decreases fns@.len() - i,
        {
            if let Some(f) = self.program.symbols.function_by_id(fns[i]) {
                if f.params.len() as u64 == args.count as u64 {
                    out.push(fns[i]);
                }
            }
            i = i + 1;
        }
        out
    }

    fn choose_callees(&self, name: &str, callee_var: Option<VarId>, args: &CallArgs) -> (r: Vec<
        FnId,
    >)
        ensures
            r@ == self@.chosen(name@, callee_var, args@),
    {
        let mut out: Vec<FnId> = Vec::new();
        if !self.is_cpp {
            if let Some(f) = self.resolve_function_named(name) {
                out.push(f);
            }
            assert(out@ =~= self@.chosen(name@, callee_var, args@));
            return out;
        }
        if callee_var.is_none() {
            let all = self.program.symbols.resolve_function_candidates(name, Some(self.file));
            let fit = self.find_fitting(&all, args);
            if fit.len() == 0 {
                return all;
            }
            return fit;
        }
        assert(out@ =~= Seq::empty());
        out
    }

    fn find_member_called(&self, func: &SyntaxNode) -> (r: Option<(String, MethodKind)>)
        ensures
            match r {
                Some((cls, kind)) => self@.member_called(func@) == Some((cls@, kind@)),
                None => self@.member_called(func@) is None,
            },
    {
        if !self.is_cpp || func.kind != NodeKind::FieldExpression {
            return None;
        }
        if func.child_by_kind(NodeKind::Dot).is_none() && func.child_by_kind(
            NodeKind::Arrow,
        ).is_none() {
            return None;
        }
        let field = match func.child_by_field(FieldName::Field) {
            Some(f) => f,
            None => {
                return None;
            },
        };
        let recv = match func.child_by_field(FieldName::Argument) {
            Some(a) => a,
            None => {
                return None;
            },
        };
        if field.kind != NodeKind::FieldIdentifier && field.kind != NodeKind::DestructorName
            && field.kind != NodeKind::TemplateType {
            return None;
        }
        let cls = match self.infer_static_class(recv) {
            Some(c) => c,
            None => {
                return None;
            },
        };
        let kind = if field.kind == NodeKind::DestructorName {
            MethodKind::Dtor
        } else {
            let text = node_text(&self.source, field);
            let raw = normalize_qualified(text.as_str());
            MethodKind::Named(strip_template_args(raw.as_str()))
        };
        Some((cls, kind))
    }

    #[verifier::rlimit(30)]
    fn collect_plain_call(
        &mut self,
        n: &SyntaxNode,
        func: &SyntaxNode,
        caller: FnId,
        span: Span,
    )
        requires
            old(self).wf(),
        ensures
            final(self).wf(),
            final(self)@ == old(self)@.after_plain_call(n@, func@, caller, span),
    {
        let (name, sure, callee_var) = self.resolve_callee_with_loads(func);
        if contains_char(name.as_str(), '"') {
            return ;
        }
        let is_direct = sure || (callee_var.is_none() && self.resolve_function_named(
            name.as_str(),
        ).is_some());
        if !is_direct && is_likely_macro_callee(name.as_str()) {
            return ;
        }
        let list = n.child_by_field(FieldName::Arguments);
        assert(child_field(n@, FieldName::Arguments) == (match list {
            Some(l) => Some(l@),
            None => None,
        }));
        let args = self.collect_call_args(list);
        let chosen = self.choose_callees(name.as_str(), callee_var, &args);
        if chosen.len() == 0 {
            self.add_site(caller, name, callee_var, None, &args, span, is_direct);
            return ;
        }
        let ghost start = self@;
        let mut i: usize = 0;
        while i < chosen.len()
            invariant
                i <= chosen@.len(),
                self.wf(),
                self@ == start.with_named_sites(
                    caller,
                    name@,
                    callee_var,
                    chosen@,
                    args@,
                    span,
                    i as int,
                ),
            decreases chosen@.len() - i,
        {
            let t = chosen[i];
            let shown = if t != chosen[0] {
                let digits = decimal(t.0 as u64);
                cat3(name.as_str(), "::", digits.as_str())
            } else {
                name.clone()
            };
            self.add_site(caller, shown, callee_var, Some(t), &args, span, true);
            i = i + 1;
        }
    }

    /// Lowers a call.
    pub fn collect_call_at_node(&mut self, n: &SyntaxNode, caller: FnId)
        requires
            old(self).wf(),
        ensures
            final(self).wf(),
            final(self)@ == old(self)@.after_call(n@, caller),
    {
        let func = match n.child_by_field(FieldName::Function) {
            Some(f) => f,
            None => {
                return ;
            },
        };
        let span = self.node_span(n);
        if let Some((cls, kind)) = self.find_member_called(func) {
            let list = n.child_by_field(FieldName::Arguments);
            let args = self.collect_call_args(list);
            self.emit_member_sites(caller, cls.as_str(), &kind, &args, span);
            return ;
        }
        self.collect_plain_call(n, func, caller, span);
    }

    fn find_initialized_class(
        &self,
        fi: &SyntaxNode,
        bases: &Vec<String>,
        cls_type: Option<TypeId>,
    ) -> (r: Option<String>)
        ensures
            opt_view(r) == self@.initialized_class(fi@, names_view(bases@), cls_type),
    {
        let m = match find_initialized(fi) {
            Some(m) => m,
            None => {
                return None;
            },
        };
        let text = node_text(&self.source, m);
        let name = normalize_qualified(text.as_str());
        if let Some(c) = find_class_ending(bases, name.as_str()) {
            return Some(c);
        }
        let t = match cls_type {
            Some(t) => t,
            None => {
                return None;
            },
        };
        match self.find_field(t, name.as_str()) {
            Some((_id, u)) => match self.program.types.get(u) {
                Some(info) => match &info.desc {
                    TypeDesc::Struct { name, fields } => Some(name.clone()),
                    _ => None,
                },
                None => None,
            },
            None => None,
        }
    }

    /// Lowers the member initializers of a constructor.
    pub fn lower_field_initializer_list(&mut self, n: &SyntaxNode, caller: FnId)
        requires
            old(self).wf(),
        ensures
            final(self).wf(),
            final(self)@ == old(self)@.after_initializer_list(n@, caller),
    {
        let cls = match &self.class {
            Some(c) => c.clone(),
            None => {
                return ;
            },
        };
        let bases = self.program.bases_of(cls.as_str());
        let cls_type = self.program.types.type_id_by_tag(cls.as_str(), TypeKind::Struct);
        let ghost start = self@;
        let mut i: usize = 0;
        while i < n.children.len()
            invariant
                i <= n@.children.len(),
                self.wf(),
                self@ == start.after_initializers(
                    n@,
                    names_view(bases@),
                    cls_type,
                    caller,
                    i as int,
                ),
            decreases n@.children.len() - i,
        {
            let fi = &n.children[i];
            if fi.kind == NodeKind::FieldInitializer {
                if let Some(target) = self.find_initialized_class(fi, &bases, cls_type) {
                    let span = self.node_span(fi);
                    let list = fi.child_by_kind(NodeKind::ArgumentList);
                    let args = self.collect_call_args(list);
                    self.emit_member_sites(
                        caller,
                        target.as_str(),
                        &MethodKind::Ctor,
                        &args,
                        span,
                    );
                }
            }
            i = i + 1;
        }
    }
}

} // verus!
