//! The virtual machine around its state: functions, modules and load paths.

use vstd::prelude::*;
use vstd::string::StringExecFns;

use crate::code::{Callable, ENTRY_POINT};
use crate::error::{err_v, ErrorKind, ErrorV, Lovm2Error, Lovm2ErrorTy, Lovm2Result};
use crate::module::slots::{slot_insert, lemma_slot_find_facts};
use crate::module::Module;
use crate::var::Variable;

use crate::module::slots::slot_get;
use crate::value::data::box_spec;
use crate::value::{Value, ValueV};

use super::context::{lookup_failed, stack_empty, Context, ContextV, FrameV};

verus! {

/// A request to load a module, as a load hook receives it.
pub struct LoadRequest {
    pub module: String,
    pub relative_to: Option<String>,
}

/// Name under which a function of a module is made callable: with a module
/// name, `module.name`, otherwise the name itself.
pub open spec fn import_name(module: Option<Seq<char>>, name: Seq<char>) -> Seq<char> {
    match module {
        Some(m) => m + "."@ + name,
        None => name,
    }
}

/// Name under which a function of a module is made callable, as the default
/// import hook gives it.
pub fn default_import_hook(module: Option<&str>, name: &str) -> (r: String)
    ensures
        r@ == import_name(
            match module {
                Some(m) => Some(m@),
                None => None,
            },
            name@,
        ),
{
    match module {
        Some(m) => {
            let mut s = String::from_str(m);
            s.append(".");
            s.append(name);
            s
        },
        None => String::from_str(name),
    }
}

/// Error of a function name that is already taken.
pub open spec fn import_conflict(name: Seq<char>) -> ErrorV {
    err_v(ErrorKind::ImportConflict, name)
}

/// Position of the loaded module named `name`.
pub open spec fn module_find(mods: Seq<Module>, name: Seq<char>) -> Option<int> {
    if exists|i: int| 0 <= i < mods.len() && mods[i].code_object.name@ == name {
        Some(choose|i: int| 0 <= i < mods.len() && mods[i].code_object.name@ == name)
    } else {
        None
    }
}

/// Callable functions by name.
pub open spec fn scope_v(s: Seq<(Variable, Callable)>) -> Seq<(Seq<char>, Callable)> {
    s.map_values(|p: (Variable, Callable)| (p.0@, p.1))
}

/// Position of the first entry named `k` at or after `i`.
pub open spec fn named_find_from(s: Seq<(Seq<char>, Callable)>, k: Seq<char>, i: int) -> Option<int>
    decreases s.len() - i,
{
    if i < 0 || i >= s.len() {
        None
    } else if s[i].0 == k {
        Some(i)
    } else {
        named_find_from(s, k, i + 1)
    }
}

/// Entries after storing `co` under `k`: an existing entry keeps its place.
pub open spec fn named_insert(s: Seq<(Seq<char>, Callable)>, k: Seq<char>, co: Callable) -> Seq<(Seq<char>, Callable)> {
    match named_find_from(s, k, 0) {
        Some(i) => s.update(i, (k, co)),
        None => s.push((k, co)),
    }
}

/// Searching slots and searching their names agree.
pub proof fn lemma_scope_find(s: Seq<(Variable, Callable)>, k: Seq<char>, i: int)
    requires
        0 <= i,
    ensures
        crate::module::slots::slot_find_from(s, k, i) == named_find_from(scope_v(s), k, i),
    decreases s.len() - i,
{
    if i < s.len() {
        lemma_scope_find(s, k, i + 1);
    }
}

/// Storing into slots and storing into their names agree.
pub proof fn lemma_scope_insert(s: Seq<(Variable, Callable)>, k: Variable, co: Callable)
    ensures
        scope_v(slot_insert(s, k, co)) == named_insert(scope_v(s), k@, co),
{
    lemma_scope_find(s, k@, 0);
    lemma_slot_find_facts(s, k@);
    assert(scope_v(slot_insert(s, k, co)) =~= named_insert(scope_v(s), k@, co));
}

/// Scope after adding the functions of `slots[i..]`: each under the module's
/// prefix and, unless `namespaced`, under its own name; `Err` at the first
/// name that was taken (the function is stored under it anyway).
pub open spec fn add_slots(
    scope: Seq<(Seq<char>, Callable)>,
    module: Seq<char>,
    slots: Seq<(Variable, Callable)>,
    namespaced: bool,
    i: int,
) -> (Seq<(Seq<char>, Callable)>, Result<(), ErrorV>)
    decreases slots.len() - i,
{
    if i < 0 || i >= slots.len() {
        (scope, Ok(()))
    } else {
        let key = slots[i].0@;
        let co = slots[i].1;
        let full = import_name(Some(module), key);
        let s1 = named_insert(scope, full, co);
        if named_find_from(scope, full, 0) is Some {
            (s1, Err(import_conflict(full)))
        } else if namespaced {
            add_slots(s1, module, slots, namespaced, i + 1)
        } else {
            let s2 = named_insert(s1, key, co);
            if named_find_from(s1, key, 0) is Some {
                (s2, Err(import_conflict(key)))
            } else {
                add_slots(s2, module, slots, namespaced, i + 1)
            }
        }
    }
}

/// Cells and values pushed for the arguments `args[i..]` of a call: a
/// dictionary or list is wrapped into a new cell, other values are pushed as
/// they are.
pub open spec fn call_args(cells: Seq<ValueV>, args: Seq<Value>, i: int) -> (Seq<ValueV>, Seq<ValueV>)
    decreases args.len() - i,
{
    if i < 0 || i >= args.len() {
        (cells, Seq::empty())
    } else {
        let a = args[i]@;
        let (c1, v) = if a is Dict || a is List {
            box_spec(cells, a)
        } else {
            (cells, a)
        };
        let (c2, rest) = call_args(c1, args, i + 1);
        (c2, seq![v] + rest)
    }
}

/// The virtual machine: its state and where it looks for modules.
pub struct Vm {
    pub ctx: Context,
    /// Directories searched for modules, in order.
    pub load_paths: Vec<String>,
}


impl Vm {
    /// A machine with an empty state that looks for modules in
    /// `<home>/.local/lib/lovm2/`.
    pub fn with_home(home: &str) -> (r: Vm)
        ensures
            r.ctx@ == Context::new_v(),
            r.ctx.entry is None,
            r.ctx.scope@.len() == 0,
            r.ctx.modules@.len() == 0,
            r.load_paths@.len() == 1,
            r.load_paths@[0]@ == home@ + "/.local/lib/lovm2/"@,
    {
        let mut path = String::from_str(home);
        path.append("/.local/lib/lovm2/");
        let mut load_paths: Vec<String> = Vec::new();
        load_paths.push(path);
        Vm { ctx: Context::new(), load_paths }
    }

    /// Look for modules in `path` as well, after the directories already
    /// known.
    pub fn add_load_path(&mut self, path: String)
        ensures
            final(self).load_paths@ == old(self).load_paths@.push(path),
            final(self).ctx == old(self).ctx,
    {
        self.load_paths.push(path);
    }

    /// The machine state.
    pub fn context_mut(&mut self) -> (r: &mut Context)
        ensures
            *r == old(self).ctx,
            final(self).ctx == *final(r),
            final(self).load_paths == old(self).load_paths,
    {
        &mut self.ctx
    }

    /// Make `co` callable as `key`. A function already stored under the name
    /// is replaced, and the replacement is reported as an import conflict.
    pub fn add_function(&mut self, key: Variable, co: Callable) -> (r: Lovm2Result<()>)
        ensures
            scope_v(final(self).ctx.scope@) == named_insert(scope_v(old(self).ctx.scope@), key@, co),
            match named_find_from(scope_v(old(self).ctx.scope@), key@, 0) {
                Some(_) => r matches Err(e) && e@ == import_conflict(key@),
                None => r is Ok,
            },
            final(self).ctx@ == old(self).ctx@,
            final(self).ctx.modules == old(self).ctx.modules,
            final(self).ctx.entry == old(self).ctx.entry,
            final(self).load_paths == old(self).load_paths,
    {
        let existed = self.ctx.scope.find(&key).is_some();
        proof {
            lemma_scope_find(self.ctx.scope@, key@, 0);
            lemma_scope_insert(self.ctx.scope@, key, co);
        }
        let err = if existed {
            Some(Lovm2Error::with_msg(Lovm2ErrorTy::ImportConflict, key.as_ref()))
        } else {
            None
        };
        self.ctx.scope.insert(key, co);
        match err {
            Some(e) => Err(e),
            None => Ok(()),
        }
    }

    /// Whether a module of the given name is loaded.
    pub fn is_loaded(&self, name: &str) -> (r: bool)
        ensures
            r == (module_find(self.ctx.modules@, name@) is Some),
    {
        let target = String::from_str(name);
        let mut i: usize = 0;
        while i < self.ctx.modules.len()
            invariant
                target@ == name@,
                i <= self.ctx.modules@.len(),
                forall|j: int| 0 <= j < i ==> self.ctx.modules@[j].code_object.name@ != name@,
            decreases self.ctx.modules@.len() - i,
        {
            if self.ctx.modules[i].code_object.name == target {
                assert(self.ctx.modules@[i as int].code_object.name@ == name@);
                return true;
            }
            i += 1;
        }
        false
    }

    /// Add the module and make its functions callable: each under
    /// `module.name` and, unless `namespaced`, under its own name as well. A
    /// module of a name already loaded is not added again. The modules the
    /// module uses are loaded by the caller first.
    pub fn add_module(&mut self, module: Module, namespaced: bool) -> (r: Lovm2Result<()>)
        ensures
            final(self).ctx@ == old(self).ctx@,
            final(self).ctx.entry == old(self).ctx.entry,
            final(self).load_paths == old(self).load_paths,
            match module_find(old(self).ctx.modules@, module.code_object.name@) {
                Some(_) => r is Ok && final(self).ctx.scope == old(self).ctx.scope && final(self).ctx.modules
                    == old(self).ctx.modules,
                None => {
                    let (s, res) = add_slots(
                        scope_v(old(self).ctx.scope@),
                        module.code_object.name@,
                        module.slots@,
                        namespaced,
                        0,
                    );
                    &&& scope_v(final(self).ctx.scope@) == s
                    &&& match res {
                        Ok(_) => r is Ok && final(self).ctx.modules@ == old(self).ctx.modules@.push(module),
                        Err(e) => r matches Err(x) && x@ == e && final(self).ctx.modules == old(self).ctx.modules,
                    }
                },
            },
    {
        if self.is_loaded(module.name()) {
            return Ok(());
        }
        let ghost mname = module.code_object.name@;
        let ghost slots = module.slots@;
        let n = module.slots.0.len();
        let mut i: usize = 0;
        while i < n
            invariant
                n == slots.len(),
                slots == module.slots@,
                mname == module.code_object.name@,
                module_find(old(self).ctx.modules@, mname) is None,
                i <= n,
                self.ctx@ == old(self).ctx@,
                self.ctx.entry == old(self).ctx.entry,
                self.ctx.modules == old(self).ctx.modules,
                self.load_paths == old(self).load_paths,
                add_slots(scope_v(old(self).ctx.scope@), mname, slots, namespaced, 0) == add_slots(
                    scope_v(self.ctx.scope@),
                    mname,
                    slots,
                    namespaced,
                    i as int,
                ),
            decreases n - i,
        {
            let key = &module.slots.0[i].0;
            assert(key@ == slots[i as int].0@);
            let full = default_import_hook(Some(module.name()), key.as_ref());
            let co = module.slots.0[i].1.duplicate();
            match self.add_function(Variable::from_string(full), co) {
                Ok(_) => {},
                Err(e) => {
                    return Err(e);
                },
            }
            if !namespaced {
                let co2 = module.slots.0[i].1.duplicate();
                match self.add_function(key.duplicate(), co2) {
                    Ok(_) => {},
                    Err(e) => {
                        return Err(e);
                    },
                }
            }
            i += 1;
        }
        self.ctx.modules.push(module);
        Ok(())
    }

    /// Add the module as the program to run: its `main` function becomes the
    /// entry point. A module without `main` is refused.
    pub fn add_main_module(&mut self, module: Module) -> (r: Lovm2Result<()>)
        ensures
            final(self).ctx@ == old(self).ctx@,
            final(self).load_paths == old(self).load_paths,
            match crate::module::slots::slot_get(module.slots@, ENTRY_POINT@) {
                Some(co) => final(self).ctx.entry == Some(co) && match module_find(
                    old(self).ctx.modules@,
                    module.code_object.name@,
                ) {
                    Some(_) => r is Ok && final(self).ctx.scope == old(self).ctx.scope && final(self).ctx.modules
                        == old(self).ctx.modules,
                    None => {
                        let (s, res) = add_slots(
                            scope_v(old(self).ctx.scope@),
                            module.code_object.name@,
                            module.slots@,
                            false,
                            0,
                        );
                        &&& scope_v(final(self).ctx.scope@) == s
                        &&& match res {
                            Ok(_) => r is Ok && final(self).ctx.modules@ == old(self).ctx.modules@.push(module),
                            Err(e) => r matches Err(x) && x@ == e && final(self).ctx.modules == old(self).ctx.modules,
                        }
                    },
                },
                None => r matches Err(e) && e@ == err_v(ErrorKind::NoEntryPoint, Seq::empty())
                    && *final(self) == *old(self),
            },
    {
        let main = Variable::from_str(ENTRY_POINT);
        match module.slot(&main) {
            Some(co) => {
                self.ctx.entry = Some(co);
                self.add_module(module, false)
            },
            None => Err(Lovm2Error::from_ty(Lovm2ErrorTy::NoEntryPoint)),
        }
    }

    /// Set up a call of the function `name` with `args`: the arguments are
    /// pushed in order, dictionaries and lists wrapped into cells first, and
    /// a frame for them is created. The caller runs the returned callable and
    /// then takes the result with [Vm::finish_call].
    pub fn prepare_call(&mut self, name: &str, args: &[Value]) -> (r: Lovm2Result<Callable>)
        requires
            args@.len() < 256,
        ensures
            final(self).load_paths == old(self).load_paths,
            final(self).ctx.scope == old(self).ctx.scope,
            final(self).ctx.modules == old(self).ctx.modules,
            final(self).ctx.entry == old(self).ctx.entry,
            match slot_get(old(self).ctx.scope@, name@) {
                Some(co) => {
                    let (c, pushed) = call_args(old(self).ctx@.cells, args@, 0);
                    &&& r == Ok::<Callable, Lovm2Error>(co)
                    &&& final(self).ctx@ == (ContextV {
                        vstack: old(self).ctx@.vstack + pushed,
                        frames: old(self).ctx@.frames.push(FrameV { argn: args@.len() as u8, locals: Seq::empty() }),
                        cells: c,
                        ..old(self).ctx@
                    })
                },
                None => r matches Err(e) && e@ == lookup_failed(name@) && final(self).ctx@ == old(self).ctx@,
            },
    {
        let var = Variable::from_str(name);
        let co = match self.ctx.lookup_code_object(&var) {
            Ok(co) => co,
            Err(e) => {
                return Err(e);
            },
        };
        let ghost c0 = self.ctx@;
        let mut i: usize = 0;
        while i < args.len()
            invariant
                i <= args@.len(),
                args@.len() < 256,
                self.load_paths == old(self).load_paths,
                self.ctx.scope == old(self).ctx.scope,
                self.ctx.modules == old(self).ctx.modules,
                self.ctx.entry == old(self).ctx.entry,
                ({
                    let (c, pushed) = call_args(c0.cells, args@, 0);
                    let (ci, pi) = call_args(self.ctx@.cells, args@, i as int);
                    &&& c == ci
                    &&& c0.vstack + pushed == self.ctx@.vstack + pi
                    &&& self.ctx@ == (ContextV { vstack: self.ctx@.vstack, cells: self.ctx@.cells, ..c0 })
                }),
            decreases args@.len() - i,
        {
            let arg = args[i].duplicate();
            let ghost before = self.ctx@;
            let v = match arg {
                Value::Dict(_) | Value::List(_) => self.ctx.heap.box_value(arg),
                _ => arg,
            };
            self.ctx.push_value(v);
            proof {
                let (c2, p2) = call_args(self.ctx@.cells, args@, (i + 1) as int);
                assert(before.vstack + (seq![v@] + p2) =~= self.ctx@.vstack + p2);
            }
            i += 1;
        }
        proof {
            let (ci, pi) = call_args(self.ctx@.cells, args@, i as int);
            assert(self.ctx@.vstack + pi =~= self.ctx@.vstack);
        }
        self.ctx.push_frame(args.len() as u8);
        Ok(co)
    }

    /// Finish a call set up by [Vm::prepare_call]: remove the frame and take
    /// the function's result from the stack.
    pub fn finish_call(&mut self) -> (r: Lovm2Result<Value>)
        ensures
            final(self).load_paths == old(self).load_paths,
            final(self).ctx.scope == old(self).ctx.scope,
            final(self).ctx.modules == old(self).ctx.modules,
            final(self).ctx.entry == old(self).ctx.entry,
            ({
                let f = old(self).ctx@.frames;
                let c1 = ContextV { frames: if f.len() > 0 { f.drop_last() } else { f }, ..old(self).ctx@ };
                if c1.vstack.len() > 0 {
                    &&& r matches Ok(v) && v@ == c1.vstack.last()
                    &&& final(self).ctx@ == (ContextV { vstack: c1.vstack.drop_last(), ..c1 })
                } else {
                    &&& r matches Err(e) && e@ == stack_empty()
                    &&& final(self).ctx@ == c1
                }
            }),
    {
        self.ctx.pop_frame();
        self.ctx.pop_value()
    }
}

} // verus!
