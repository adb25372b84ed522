//! State of the virtual machine: variables, stacks and the heap.

use vstd::prelude::*;
use vstd::string::StringExecFns;

use crate::code::Callable;
use crate::error::{err_v, ErrorKind, ErrorV, Lovm2Error, Lovm2ErrorTy, Lovm2Result};
use crate::module::slots::{slot_get, Slots};
use crate::module::Module;
use crate::value::heap::Heap;
use crate::value::iter::{Iter, IterV};
use crate::value::{Value, ValueV};
use crate::var::Variable;

verus! {

broadcast use crate::value::group_value_views;

/// Named values as pairs of name and value.
pub open spec fn pairs_v(s: Seq<(String, Value)>) -> Seq<(Seq<char>, ValueV)> {
    s.map_values(|p: (String, Value)| (p.0@, p.1@))
}

/// Position of the first pair named `k` at or after `i`.
pub open spec fn var_find_from(s: Seq<(Seq<char>, ValueV)>, k: Seq<char>, i: int) -> Option<int>
    decreases s.len() - i,
{
    if i < 0 || i >= s.len() {
        None
    } else if s[i].0 == k {
        Some(i)
    } else {
        var_find_from(s, k, i + 1)
    }
}

/// Value of the variable `k`.
pub open spec fn var_get(s: Seq<(Seq<char>, ValueV)>, k: Seq<char>) -> Option<ValueV> {
    match var_find_from(s, k, 0) {
        Some(i) => Some(s[i].1),
        None => None,
    }
}

/// Variables after setting `k` to `v`: an existing variable keeps its place.
pub open spec fn var_set(s: Seq<(Seq<char>, ValueV)>, k: Seq<char>, v: ValueV) -> Seq<(Seq<char>, ValueV)> {
    match var_find_from(s, k, 0) {
        Some(i) => s.update(i, (k, v)),
        None => s.push((k, v)),
    }
}

pub proof fn lemma_var_find_from(s: Seq<(Seq<char>, ValueV)>, k: Seq<char>, i: int)
    requires
        0 <= i,
    ensures
        match var_find_from(s, k, i) {
            Some(j) => i <= j < s.len() && s[j].0 == k && forall|m: int| i <= m < j ==> s[m].0 != k,
            None => forall|m: int| i <= m < s.len() ==> s[m].0 != k,
        },
    decreases s.len() - i,
{
    if i < s.len() && s[i].0 != k {
        lemma_var_find_from(s, k, i + 1);
    }
}

/// Reading a variable after setting it gives the value set.
pub proof fn law_var_get_set(s: Seq<(Seq<char>, ValueV)>, k: Seq<char>, v: ValueV)
    ensures
        var_get(var_set(s, k, v), k) == Some(v),
{
    lemma_var_find_from(s, k, 0);
    let t = var_set(s, k, v);
    lemma_var_find_from(t, k, 0);
    match var_find_from(s, k, 0) {
        Some(i) => {
            assert(t[i].0 == k);
        },
        None => {
            assert(t[s.len() as int].0 == k);
        },
    }
}

/// setting a variable leaves every other variable as it was.
pub proof fn law_var_get_set_other(s: Seq<(Seq<char>, ValueV)>, k: Seq<char>, v: ValueV, other: Seq<char>)
    requires
        other != k,
    ensures
        var_get(var_set(s, k, v), other) == var_get(s, other),
{
    lemma_var_find_from(s, k, 0);
    lemma_var_find_from(s, other, 0);
    let t = var_set(s, k, v);
    lemma_var_find_from(t, other, 0);
    match (var_find_from(t, other, 0), var_find_from(s, other, 0)) {
        (Some(a), Some(b)) => {
            if a < b {
                assert(s[a].0 == t[a].0);
            } else if b < a {
                assert(s[b].0 == t[b].0);
            }
        },
        (Some(a), None) => {
            if a < s.len() {
                assert(s[a].0 == t[a].0);
            }
        },
        (None, Some(b)) => {
            assert(s[b].0 == t[b].0);
        },
        (None, None) => {},
    }
}

/// Position of the variable `k` in `vars`.
pub fn find_var(vars: &Vec<(String, Value)>, k: &str) -> (r: Option<usize>)
    ensures
        match r {
            Some(i) => var_find_from(pairs_v(vars@), k@, 0) == Some(i as int) && i < vars@.len(),
            None => var_find_from(pairs_v(vars@), k@, 0) is None,
        },
{
    let ghost s = pairs_v(vars@);
    let key = String::from_str(k);
    let mut i: usize = 0;
    while i < vars.len()
        invariant
            i <= vars@.len(),
            s == pairs_v(vars@),
            key@ == k@,
            var_find_from(s, k@, i as int) == var_find_from(s, k@, 0),
        decreases vars@.len() - i,
    {
        if vars[i].0 == key {
            return Some(i);
        }
        i += 1;
    }
    None
}

/// Set the variable `k` to `v` in `vars`.
pub fn set_var(vars: &mut Vec<(String, Value)>, k: String, v: Value)
    ensures
        pairs_v(final(vars)@) == var_set(pairs_v(old(vars)@), k@, v@),
{
    let ghost before = pairs_v(vars@);
    match find_var(vars, k.as_str()) {
        Some(i) => {
            vars.set(i, (k, v));
            assert(pairs_v(vars@) =~= before.update(i as int, (k@, v@)));
        },
        None => {
            vars.push((k, v));
            assert(pairs_v(vars@) =~= before.push((k@, v@)));
        },
    }
}

/// Error of a name that cannot be resolved.
pub open spec fn lookup_failed(name: Seq<char>) -> ErrorV {
    err_v(ErrorKind::LookupFailed, name)
}

/// Error of an empty value stack.
pub open spec fn stack_empty() -> ErrorV {
    ErrorV { ty: Some(ErrorKind::ValueStackEmpty), msg: Seq::empty() }
}

/// Error of an empty call stack.
pub open spec fn frames_empty() -> ErrorV {
    ErrorV { ty: Some(ErrorKind::FrameStackEmpty), msg: Seq::empty() }
}

/// A stack frame: the number of arguments passed and the local variables.
pub struct Frame {
    pub argn: u8,
    pub locals: Vec<(String, Value)>,
}

/// Mathematical view of [Frame].
pub struct FrameV {
    pub argn: u8,
    pub locals: Seq<(Seq<char>, ValueV)>,
}

impl View for Frame {
    type V = FrameV;

    open spec fn view(&self) -> FrameV {
        FrameV { argn: self.argn, locals: pairs_v(self.locals@) }
    }
}

impl Frame {
    /// Frame for a call with `argn` arguments and no locals.
    pub fn new(argn: u8) -> (r: Frame)
        ensures
            r@ == (FrameV { argn, locals: Seq::empty() }),
    {
        let locals: Vec<(String, Value)> = Vec::new();
        assert(pairs_v(locals@) =~= Seq::empty());
        Frame { argn, locals }
    }

    /// Create or update a local variable.
    pub fn set_local(&mut self, var: &str, value: Value)
        ensures
            final(self)@ == (FrameV { argn: old(self).argn, locals: var_set(old(self)@.locals, var@, value@) }),
    {
        set_var(&mut self.locals, String::from_str(var), value);
    }

    /// The value of a local variable.
    pub fn value_of(&self, var: &str) -> (r: Lovm2Result<&Value>)
        ensures
            match var_get(self@.locals, var@) {
                Some(v) => r matches Ok(x) && x@ == v,
                None => r matches Err(e) && e@ == lookup_failed(var@),
            },
    {
        match find_var(&self.locals, var) {
            Some(i) => Ok(&self.locals[i].1),
            None => Err(Lovm2Error::with_msg(Lovm2ErrorTy::LookupFailed, var)),
        }
    }
}

/// Views of a stack of frames.
pub open spec fn frames_v(s: Seq<Frame>) -> Seq<FrameV> {
    s.map_values(|f: Frame| f@)
}

/// Views of a stack of values.
pub open spec fn values_v(s: Seq<Value>) -> Seq<ValueV> {
    s.map_values(|v: Value| v@)
}

/// Views of the iterators.
pub open spec fn iters_v(s: Seq<Iter>) -> Seq<IterV> {
    s.map_values(|it: Iter| it@)
}

/// The state of the virtual machine.
pub struct Context {
    /// Starting point of execution.
    pub entry: Option<Callable>,
    /// Global variables.
    pub globals: Vec<(String, Value)>,
    /// Functions that bytecode can call by name.
    pub scope: Slots,
    /// Call stack with the local variables and the number of arguments.
    pub lstack: Vec<Frame>,
    /// Value stack.
    pub vstack: Vec<Value>,
    /// Cells that references point to.
    pub heap: Heap,
    /// Iterators that `Value::Iter` values name.
    pub iters: Vec<Iter>,
    /// Loaded modules.
    pub modules: Vec<Module>,
}

/// Mathematical view of the parts of [Context] that bytecode changes.
pub struct ContextV {
    pub globals: Seq<(Seq<char>, ValueV)>,
    pub frames: Seq<FrameV>,
    pub vstack: Seq<ValueV>,
    pub cells: Seq<ValueV>,
    pub iters: Seq<IterV>,
}

impl View for Context {
    type V = ContextV;

    open spec fn view(&self) -> ContextV {
        ContextV {
            globals: pairs_v(self.globals@),
            frames: frames_v(self.lstack@),
            vstack: values_v(self.vstack@),
            cells: self.heap.cells_v(),
            iters: iters_v(self.iters@),
        }
    }
}

impl Context {
    /// View of a machine state without variables, frames, values or cells.
    pub open spec fn new_v() -> ContextV {
        ContextV {
            globals: Seq::empty(),
            frames: Seq::empty(),
            vstack: Seq::empty(),
            cells: Seq::empty(),
            iters: Seq::empty(),
        }
    }

    /// A machine state without variables, frames, values or modules.
    pub fn new() -> (r: Context)
        ensures
            r@ == (ContextV {
                globals: Seq::empty(),
                frames: Seq::empty(),
                vstack: Seq::empty(),
                cells: Seq::empty(),
                iters: Seq::empty(),
            }),
            r.entry is None,
            r.scope@.len() == 0,
            r.modules@.len() == 0,
    {
        let r = Context {
            entry: None,
            globals: Vec::new(),
            scope: Slots::new(),
            lstack: Vec::new(),
            vstack: Vec::new(),
            heap: Heap::new(),
            iters: Vec::new(),
            modules: Vec::new(),
        };
        assert(r@.globals =~= Seq::empty());
        assert(r@.frames =~= Seq::empty());
        assert(r@.vstack =~= Seq::empty());
        assert(r@.iters =~= Seq::empty());
        r
    }

    /// The callable that `name` resolves to.
    pub fn lookup_code_object(&self, name: &Variable) -> (r: Lovm2Result<Callable>)
        ensures
            match slot_get(self.scope@, name@) {
                Some(c) => r == Ok::<Callable, Lovm2Error>(c),
                None => r matches Err(e) && e@ == lookup_failed(name@),
            },
    {
        match self.scope.get(name) {
            Some(c) => Ok(c.duplicate()),
            None => Err(Lovm2Error::with_msg(Lovm2ErrorTy::LookupFailed, name.as_ref())),
        }
    }

    /// The value stack itself.
    pub fn stack_mut(&mut self) -> (r: &mut Vec<Value>)
        ensures
            *r == old(self).vstack,
            *final(self) == (Context { vstack: *final(r), ..*old(self) }),
    {
        &mut self.vstack
    }

    /// The call stack itself.
    pub fn lstack_mut(&mut self) -> (r: &mut Vec<Frame>)
        ensures
            *r == old(self).lstack,
            *final(self) == (Context { lstack: *final(r), ..*old(self) }),
    {
        &mut self.lstack
    }

    /// Set a global variable.
    pub fn set_global(&mut self, var: &str, val: Value)
        ensures
            final(self)@ == (ContextV { globals: var_set(old(self)@.globals, var@, val@), ..old(self)@ }),
            final(self).scope == old(self).scope,
            final(self).modules == old(self).modules,
            final(self).entry == old(self).entry,
    {
        set_var(&mut self.globals, String::from_str(var), val);
    }

    /// Look a global variable up.
    pub fn value_of(&self, var: &str) -> (r: Lovm2Result<&Value>)
        ensures
            match var_get(self@.globals, var@) {
                Some(v) => r matches Ok(x) && x@ == v,
                None => r matches Err(e) && e@ == lookup_failed(var@),
            },
    {
        match find_var(&self.globals, var) {
            Some(i) => Ok(&self.globals[i].1),
            None => Err(Lovm2Error::with_msg(Lovm2ErrorTy::LookupFailed, var)),
        }
    }

    /// Create a frame on the call stack.
    pub fn push_frame(&mut self, argn: u8)
        ensures
            final(self)@ == (ContextV {
                frames: old(self)@.frames.push(FrameV { argn, locals: Seq::empty() }),
                ..old(self)@
            }),
            final(self).scope == old(self).scope,
            final(self).modules == old(self).modules,
            final(self).entry == old(self).entry,
    {
        let f = Frame::new(argn);
        self.lstack.push(f);
        assert(frames_v(self.lstack@) =~= frames_v(old(self).lstack@).push(f@));
    }

    /// Remove the last frame from the call stack.
    pub fn pop_frame(&mut self)
        ensures
            final(self)@ == (ContextV {
                frames: if old(self)@.frames.len() > 0 {
                    old(self)@.frames.drop_last()
                } else {
                    old(self)@.frames
                },
                ..old(self)@
            }),
            final(self).scope == old(self).scope,
            final(self).modules == old(self).modules,
            final(self).entry == old(self).entry,
    {
        let _ = self.lstack.pop();
        assert(frames_v(self.lstack@) =~= if old(self)@.frames.len() > 0 {
            old(self)@.frames.drop_last()
        } else {
            old(self)@.frames
        });
    }

    /// Put a value on the stack.
    pub fn push_value(&mut self, value: Value)
        ensures
            final(self)@ == (ContextV { vstack: old(self)@.vstack.push(value@), ..old(self)@ }),
            final(self).scope == old(self).scope,
            final(self).modules == old(self).modules,
            final(self).entry == old(self).entry,
    {
        self.vstack.push(value);
        assert(values_v(self.vstack@) =~= values_v(old(self).vstack@).push(value@));
    }

    /// Remove the last value from the stack.
    pub fn pop_value(&mut self) -> (r: Lovm2Result<Value>)
        ensures
            final(self).scope == old(self).scope,
            final(self).modules == old(self).modules,
            final(self).entry == old(self).entry,
            if old(self)@.vstack.len() > 0 {
                &&& r matches Ok(v) && v@ == old(self)@.vstack.last()
                &&& final(self)@ == (ContextV { vstack: old(self)@.vstack.drop_last(), ..old(self)@ })
            } else {
                &&& r matches Err(e) && e@ == stack_empty()
                &&& final(self)@ == old(self)@
            },
    {
        match self.vstack.pop() {
            Some(v) => {
                assert(values_v(self.vstack@) =~= values_v(old(self).vstack@).drop_last());
                Ok(v)
            },
            None => Err(Lovm2Error::from_ty(Lovm2ErrorTy::ValueStackEmpty)),
        }
    }

    /// The last value on the stack, for changing it in place.
    pub fn last_value_mut(&mut self) -> (r: Lovm2Result<&mut Value>)
        ensures
            final(self).scope == old(self).scope,
            final(self).modules == old(self).modules,
            final(self).entry == old(self).entry,
            if old(self)@.vstack.len() > 0 {
                &&& r matches Ok(v) && *v == old(self).vstack@.last()
                &&& r matches Ok(v) && final(self).vstack@ == old(self).vstack@.update(
                    old(self).vstack@.len() - 1,
                    *final(v),
                )
                &&& final(self).globals == old(self).globals
                &&& final(self).lstack == old(self).lstack
                &&& final(self).heap == old(self).heap
                &&& final(self).iters == old(self).iters
            } else {
                &&& r matches Err(e) && e@ == stack_empty()
                &&& *final(self) == *old(self)
            },
    {
        let n = self.vstack.len();
        if n == 0 {
            return Err(Lovm2Error::from_ty(Lovm2ErrorTy::ValueStackEmpty));
        }
        Ok(&mut self.vstack[n - 1])
    }
}

} // verus!
