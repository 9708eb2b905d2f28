//! Calls between processes, found by the names of classes and methods.

use crate::ir::ids::FnId;
use crate::ir::ipc::{bridges_view, BridgeV, IpcBridge};
use crate::ir::program::{base_name, last_segment, segment_start, Program, ProgramV};
use crate::text::{cat2, cat3, chars_of, str_eq, string_of};
use vstd::prelude::*;

verus! {

/// The class of a qualified name: what stands before its last `::`. Nothing
/// if the name is not qualified.
pub open spec fn class_part(name: Seq<char>) -> Seq<char> {
    let k = segment_start(name, name.len() as int);
    if k >= 2 {
        name.take(k - 2)
    } else {
        Seq::empty()
    }
}

/// Whether a text ends in another.
pub open spec fn ends_in(s: Seq<char>, end: Seq<char>) -> bool {
    s.len() >= end.len() && s.skip(s.len() - end.len()) == end
}

/// The class that handles what a proxy class sends.
pub open spec fn stub_class(cls: Seq<char>) -> Seq<char> {
    cls.take(cls.len() - "Proxy"@.len()) + "Stub"@
}

impl ProgramV {
    /// The handler of a method of a stub class: the method of the same name,
    /// or else that with `Handle` before it or with `Stub` behind it.
    pub open spec fn handler(self, stub: Seq<char>, method: Seq<char>) -> Option<FnId> {
        match self.symbols.resolve(stub + "::"@ + method) {
            Some(f) => Some(f),
            None => match self.symbols.resolve(stub + "::Handle"@ + method) {
                Some(f) => Some(f),
                None => self.symbols.resolve(stub + "::"@ + (method + "Stub"@)),
            },
        }
    }

    /// The handler of what a function sends, if the function is a method of a
    /// proxy class whose stub class has one.
    pub open spec fn handler_of(self, name: Seq<char>) -> Option<FnId> {
        let cls = class_part(name);
        if ends_in(cls, "Proxy"@) {
            self.handler(stub_class(cls), last_segment(name))
        } else {
            None
        }
    }

    /// The bridges of the first `n` functions.
    pub open spec fn bridges(self, n: int) -> Seq<BridgeV>
        decreases n,
    {
        if n <= 0 {
            Seq::empty()
        } else {
            let before = self.bridges(n - 1);
            match self.handler_of(self.symbols.functions[n - 1].name) {
                Some(h) => {
                    let b = BridgeV {
                        proxy_method: self.symbols.functions[n - 1].id,
                        stub_handler: h,
                        descriptor: Seq::empty(),
                    };
                    if before.contains(b) {
                        before
                    } else {
                        before.push(b)
                    }
                },
                None => before,
            }
        }
    }
}

fn class_of(name: &str) -> (r: String)
    ensures
        r@ == class_part(name@),
{
    let cs = chars_of(name);
    let mut i: usize = cs.len();
    while i >= 2 && !(cs[i - 2] == ':' && cs[i - 1] == ':')
        invariant
            cs@ == name@,
            i <= cs@.len(),
            segment_start(name@, i as int) == segment_start(name@, name@.len() as int),
        decreases i,
    {
        i = i - 1;
    }
    if i >= 2 {
        let r = string_of(&cs, 0, i - 2);
        assert(r@ =~= name@.take(i - 2));
        r
    } else {
        let r = String::new();
        assert(r@ =~= Seq::empty());
        r
    }
}

/// What stands before an ending, if the text has it.
fn without_end(s: &str, end: &str) -> (r: Option<String>)
    ensures
        match r {
            Some(t) => ends_in(s@, end@) && t@ == s@.take(s@.len() - end@.len()),
            None => !ends_in(s@, end@),
        },
{
    let cs = chars_of(s);
    let es = chars_of(end);
    if cs.len() < es.len() {
        return None;
    }
    let k = cs.len() - es.len();
    let tail = string_of(&cs, k, cs.len());
    assert(tail@ =~= s@.skip(k as int));
    if str_eq(tail.as_str(), end) {
        let r = string_of(&cs, 0, k);
        assert(r@ =~= s@.take(k as int));
        Some(r)
    } else {
        None
    }
}

fn handler(program: &Program, stub: &str, method: &str) -> (r: Option<FnId>)
    ensures
        r == program@.handler(stub@, method@),
{
    let same = cat3(stub, "::", method);
    match program.symbols.resolve_function(same.as_str()) {
        Some(f) => {
            return Some(f);
        },
        None => {},
    }
    let handle = cat3(stub, "::Handle", method);
    match program.symbols.resolve_function(handle.as_str()) {
        Some(f) => {
            return Some(f);
        },
        None => {},
    }
    let suffixed = cat2(method, "Stub");
    let last = cat3(stub, "::", suffixed.as_str());
    program.symbols.resolve_function(last.as_str())
}

fn handler_of(program: &Program, name: &str) -> (r: Option<FnId>)
    ensures
        r == program@.handler_of(name@),
{
    let cls = class_of(name);
    match without_end(cls.as_str(), "Proxy") {
        Some(stem) => {
            let stub = cat2(stem.as_str(), "Stub");
            let method = base_name(name);
            handler(program, stub.as_str(), method.as_str())
        },
        None => None,
    }
}

/// The bridges of a program.
pub fn detect_ipc_pairs(program: &Program) -> (r: Vec<IpcBridge>)
    ensures
        bridges_view(r@) == program@.bridges(program@.symbols.functions.len() as int),
{
    let mut out: Vec<IpcBridge> = Vec::new();
    let mut i: usize = 0;
    assert(bridges_view(out@) =~= Seq::empty());
    let count = program.symbols.function_count();
    while i < count
        invariant
            i <= count == program@.symbols.functions.len(),
            forall|k: int| 0 <= k < out@.len() ==> (#[trigger] out@[k]).descriptor@.len() == 0,
            bridges_view(out@) == program@.bridges(i as int),
        decreases count - i,
    {
        let f = program.symbols.function_at(i);
        if let Some(h) = handler_of(program, f.name.as_str()) {
            let ghost b = BridgeV {
                proxy_method: f.id,
                stub_handler: h,
                descriptor: Seq::empty(),
            };
            let mut known = false;
            let mut j: usize = 0;
            while j < out.len()
                invariant
                    j <= out@.len(),
                    b == (BridgeV {
                        proxy_method: f.id,
                        stub_handler: h,
                        descriptor: Seq::empty(),
                    }),
                    forall|k: int| 0 <= k < out@.len() ==> (#[trigger] out@[k]).descriptor@.len() == 0,
                    known ==> bridges_view(out@).contains(b),
                    !known ==> forall|k: int| 0 <= k < j ==> bridges_view(out@)[k] != b,
                decreases out@.len() - j,
            {
                if out[j].proxy_method == f.id && out[j].stub_handler == h {
                    assert(out@[j as int].descriptor@ =~= Seq::empty());
                    assert(bridges_view(out@)[j as int] == b);
                    known = true;
                }
                j = j + 1;
            }
            if !known {
                let ghost before = out@;
                let bridge = IpcBridge {
                    proxy_method: f.id,
                    stub_handler: h,
                    descriptor: String::new(),
                };
                assert(bridge.descriptor@ =~= Seq::empty());
                out.push(bridge);
                assert(bridges_view(out@) =~= bridges_view(before).push(b));
            }
        }
        i = i + 1;
    }
    out
}

} // verus!
