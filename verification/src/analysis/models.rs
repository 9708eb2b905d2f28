//! What calls of functions without a body do to their arguments.

use crate::ir::program::{base_name, last_segment};
use crate::text::{owned, str_eq};
use vstd::prelude::*;

verus! {

/// One effect of a call. Numbers are positions of arguments.
#[derive(Debug, Clone, Copy, PartialEq, Eq, Structural)]
pub enum Effect {
    /// `dst` may hold what `src` holds.
    Alias { dst: u32, src: u32 },
    /// What `src` points to is copied to where `dst` points.
    MemCopy { dst: u32, src: u32 },
    /// `value` is written to where `ptr` points.
    ContentStore { ptr: u32, value: u32 },
    /// What `param` points to is gone.
    Clears { param: u32 },
    /// The call returns its argument.
    ReturnAlias { param: u32 },
    /// The call returns new storage.
    ReturnHeap,
    /// The call returns the function of that name.
    Dlsym { name_param: u32 },
}

/// The effects of a function.
#[derive(Debug)]
pub struct FnModel {
    pub name: String,
    pub effects: Vec<Effect>,
}

/// The mathematical form of an [`FnModel`].
pub struct ModelV {
    pub name: Seq<char>,
    pub effects: Seq<Effect>,
}

impl View for FnModel {
    type V = ModelV;

    open spec fn view(&self) -> ModelV {
        ModelV { name: self.name@, effects: self.effects@ }
    }
}

/// The functions whose effects are known.
#[derive(Debug)]
pub struct FnModelSet {
    pub models: Vec<FnModel>,
}

pub open spec fn models_view(s: Seq<FnModel>) -> Seq<ModelV> {
    Seq::new(s.len(), |i: int| s[i]@)
}

/// The first model from `i` on that has the name.
pub open spec fn model_of(models: Seq<ModelV>, name: Seq<char>, i: int) -> Option<ModelV>
    decreases models.len() - i,
{
    if i < 0 || i >= models.len() {
        None
    } else if models[i].name == name {
        Some(models[i])
    } else {
        model_of(models, name, i + 1)
    }
}

/// The models with one more, which takes the place of the first one from `i` on
/// that has its name.
pub open spec fn with_model(models: Seq<ModelV>, m: ModelV, i: int) -> Seq<ModelV>
    decreases models.len() - i,
{
    if i < 0 || i >= models.len() {
        models.push(m)
    } else if models[i].name == m.name {
        models.update(i, m)
    } else {
        with_model(models, m, i + 1)
    }
}

/// A model that is added overrides the one of its name, and no other.
pub proof fn added_model_overrides(models: Seq<ModelV>, m: ModelV, name: Seq<char>)
    ensures
        model_of(with_model(models, m, 0), name, 0) == (if name == m.name {
            Some(m)
        } else {
            model_of(models, name, 0)
        }),
{
    added_from(models, m, name, 0);
}

proof fn added_from(models: Seq<ModelV>, m: ModelV, name: Seq<char>, i: int)
    requires
        0 <= i <= models.len(),
    ensures
        model_of(with_model(models, m, i), name, i) == (if name == m.name {
            Some(m)
        } else {
            model_of(models, name, i)
        }),
        with_model(models, m, i).len() >= models.len(),
        forall|j: int| 0 <= j < i ==> with_model(models, m, i)[j] == #[trigger] models[j],
    decreases models.len() - i,
{
    let after = with_model(models, m, i);
    if i < models.len() && models[i].name == m.name {
        if name != m.name {
            same_models(after, models, name, i + 1);
        }
    } else if i < models.len() {
        added_from(models, m, name, i + 1);
        assert(after[i] == models[i]);
    } else {
        assert(after[i] == m);
        assert(model_of(after, name, i + 1) is None);
    }
}

proof fn same_models(a: Seq<ModelV>, b: Seq<ModelV>, name: Seq<char>, i: int)
    requires
        0 <= i,
        a.len() == b.len(),
        forall|j: int| i <= j < a.len() ==> a[j] == #[trigger] b[j],
    ensures
        model_of(a, name, i) == model_of(b, name, i),
    decreases a.len() - i,
{
    if i < a.len() {
        assert(a[i] == b[i]);
        same_models(a, b, name, i + 1);
    }
}

/// The model of what is called: of the name as it stands, or of its last part.
pub open spec fn model_for_callee(models: Seq<ModelV>, callee: Seq<char>) -> Option<ModelV> {
    match model_of(models, callee, 0) {
        Some(m) => Some(m),
        None => model_of(models, last_segment(callee), 0),
    }
}

/// The models that are always there.
pub open spec fn builtin_models() -> Seq<ModelV> {
    seq![
        ModelV { name: "memcpy"@, effects: seq![Effect::MemCopy { dst: 0, src: 1 }] },
        ModelV { name: "memmove"@, effects: seq![Effect::MemCopy { dst: 0, src: 1 }] },
        ModelV { name: "memcpy_s"@, effects: seq![Effect::MemCopy { dst: 0, src: 2 }] },
        ModelV { name: "memmove_s"@, effects: seq![Effect::MemCopy { dst: 0, src: 2 }] },
        ModelV { name: "malloc"@, effects: seq![Effect::ReturnHeap] },
        ModelV { name: "calloc"@, effects: seq![Effect::ReturnHeap] },
        ModelV {
            name: "realloc"@,
            effects: seq![Effect::ReturnAlias { param: 0 }, Effect::ReturnHeap],
        },
        ModelV { name: "free"@, effects: seq![Effect::Clears { param: 0 }] },
        ModelV { name: "dlsym"@, effects: seq![Effect::Dlsym { name_param: 1 }] },
    ]
}

impl View for FnModelSet {
    type V = Seq<ModelV>;

    open spec fn view(&self) -> Seq<ModelV> {
        models_view(self.models@)
    }
}

impl FnModelSet {
    fn add(&mut self, model: FnModel)
        ensures
            final(self)@ == old(self)@.push(model@),
    {
        let ghost before = self.models@;
        let ghost m = model@;
        self.models.push(model);
        assert(models_view(self.models@) =~= models_view(before).push(m));
    }

    fn put(&mut self, name: &str, effect: Effect)
        ensures
            final(self)@ == old(self)@.push(ModelV { name: name@, effects: seq![effect] }),
    {
        let mut effects: Vec<Effect> = Vec::new();
        effects.push(effect);
        assert(effects@ =~= seq![effect]);
        self.add(FnModel { name: owned(name), effects });
    }

    /// Adds a model. It takes the place of one with the same name.
    pub fn insert(&mut self, model: FnModel)
        ensures
            final(self)@ == with_model(old(self)@, model@, 0),
    {
        let ghost start = self@;
        let ghost m = model@;
        let mut i: usize = 0;
        while i < self.models.len()
            invariant
                self@ == start,
                start == old(self)@,
                i <= self.models@.len(),
                with_model(start, m, i as int) == with_model(start, m, 0),
                m == model@,
            decreases self.models@.len() - i,
        {
            assert(self@[i as int] == self.models@[i as int]@);
            if str_eq(self.models[i].name.as_str(), model.name.as_str()) {
                let ghost before = self.models@;
                self.models.set(i, model);
                assert(models_view(self.models@) =~= models_view(before).update(i as int, m));
                return ;
            }
            i = i + 1;
        }
        self.add(model);
    }

    /// How many functions have a model.
    pub fn len(&self) -> (r: usize)
        ensures
            r == self@.len(),
    {
        self.models.len()
    }

    /// The models that are always there.
    pub fn builtin() -> (r: FnModelSet)
        ensures
            r@ == builtin_models(),
    {
        let mut r = FnModelSet { models: Vec::new() };
        r.put("memcpy", Effect::MemCopy { dst: 0, src: 1 });
        r.put("memmove", Effect::MemCopy { dst: 0, src: 1 });
        r.put("memcpy_s", Effect::MemCopy { dst: 0, src: 2 });
        r.put("memmove_s", Effect::MemCopy { dst: 0, src: 2 });
        r.put("malloc", Effect::ReturnHeap);
        r.put("calloc", Effect::ReturnHeap);
        let mut effects: Vec<Effect> = Vec::new();
        effects.push(Effect::ReturnAlias { param: 0 });
        effects.push(Effect::ReturnHeap);
        assert(effects@ =~= seq![Effect::ReturnAlias { param: 0 }, Effect::ReturnHeap]);
        r.add(FnModel { name: owned("realloc"), effects });
        r.put("free", Effect::Clears { param: 0 });
        r.put("dlsym", Effect::Dlsym { name_param: 1 });
        assert(r@ =~= builtin_models());
        r
    }

    /// The model of a function.
    pub fn get(&self, name: &str) -> (r: Option<&FnModel>)
        ensures
            match r {
                Some(m) => model_of(self@, name@, 0) == Some(m@),
                None => model_of(self@, name@, 0) is None,
            },
    {
        let mut i: usize = 0;
        while i < self.models.len()
            invariant
                i <= self.models@.len(),
                model_of(self@, name@, i as int) == model_of(self@, name@, 0),
            decreases self.models@.len() - i,
        {
            assert(self@[i as int] == self.models@[i as int]@);
            if str_eq(self.models[i].name.as_str(), name) {
                return Some(&self.models[i]);
            }
            i = i + 1;
        }
        None
    }

    /// The model of what a call site calls.
    pub fn get_for_callee(&self, callee: &str) -> (r: Option<&FnModel>)
        ensures
            match r {
                Some(m) => model_for_callee(self@, callee@) == Some(m@),
                None => model_for_callee(self@, callee@) is None,
            },
    {
        match self.get(callee) {
            Some(m) => Some(m),
            None => {
                let last = base_name(callee);
                self.get(last.as_str())
            },
        }
    }
}

} // verus!
