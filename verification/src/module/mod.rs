//! Modules: code objects together with the functions they offer.

use std::rc::Rc;

use vstd::prelude::*;

pub mod builder;
pub mod loadable;
pub mod meta;
pub mod slots;
pub mod standard;

pub use self::builder::ModuleBuilder;
pub use self::loadable::LoadableModule;
pub use self::meta::ModuleMeta;
pub use self::slots::Slots;
pub use self::standard::create_standard_module;

use crate::code::{share_code, Callable, CodeObject, entries_in_range};
use crate::var::Variable;

use self::slots::{slot_get, slot_insert};

verus! {

/// Runtime representation of a loadable module.
pub struct Module {
    /// Compiled code; modules of shared objects only fill name and location.
    pub code_object: Rc<CodeObject>,
    /// Functions that are added to the machine when the module is loaded.
    pub slots: Slots,
}

/// Slots of a code object: every entry under its identifier, in order.
pub open spec fn entry_slots(co: Rc<CodeObject>, n: int) -> Seq<(Variable, Callable)>
    decreases n,
{
    if n <= 0 {
        Seq::empty()
    } else {
        let (iidx, offset) = co.entries@[n - 1];
        slot_insert(
            entry_slots(co, n - 1),
            co.idents@[iidx as int],
            Callable::Function { code: co, offset },
        )
    }
}

impl Module {
    /// Module of an empty code object without slots.
    pub fn new() -> (r: Module)
        ensures
            r.code_object.name@ == crate::code::DEFAULT_MODULE_NAME@,
            r.code_object.entries@.len() == 0,
            r.code_object.uses@.len() == 0,
            r.slots@.len() == 0,
    {
        Module { code_object: Rc::new(CodeObject::new()), slots: Slots::new() }
    }

    /// Module of a code object: each entry of the code becomes a slot that
    /// runs the code from the entry's offset.
    pub fn from(code_object: CodeObject) -> (r: Module)
        requires
            entries_in_range(code_object),
        ensures
            *r.code_object == code_object,
            r.slots@ == entry_slots(r.code_object, code_object.entries@.len() as int),
    {
        let code_object = Rc::new(code_object);
        let mut slots = Slots::new();
        let mut i: usize = 0;
        while i < code_object.entries.len()
            invariant
                i <= code_object.entries@.len(),
                entries_in_range(*code_object),
                slots@ == entry_slots(code_object, i as int),
            decreases code_object.entries@.len() - i,
        {
            let (iidx, offset) = code_object.entries[i];
            assert(code_object.entries@[i as int].0 < code_object.idents@.len());
            let var = code_object.idents[iidx].duplicate();
            let func = Callable::Function { code: share_code(&code_object), offset };
            slots.insert(var, func);
            i += 1;
        }
        Module { code_object, slots }
    }

    /// Name of the module.
    pub fn name(&self) -> (r: &str)
        ensures
            r@ == self.code_object.name@,
    {
        self.code_object.name.as_str()
    }

    /// Location the module was loaded from.
    pub fn location(&self) -> (r: Option<&String>)
        ensures
            match (r, self.code_object.loc) {
                (Some(a), Some(b)) => a@ == b@,
                (None, None) => true,
                _ => false,
            },
    {
        match &self.code_object.loc {
            Some(l) => Some(l),
            None => None,
        }
    }

    /// The module's functions.
    pub fn slots(&self) -> (r: &Slots)
        ensures
            r@ == self.slots@,
    {
        &self.slots
    }

    /// The function stored under `name`.
    pub fn slot(&self, name: &Variable) -> (r: Option<Callable>)
        ensures
            r == slot_get(self.slots@, name@),
    {
        match self.slots.get(name) {
            Some(c) => Some(c.duplicate()),
            None => None,
        }
    }

    /// Names of the modules this module depends on.
    pub fn uses(&self) -> (r: &[String])
        ensures
            r@ == self.code_object.uses@,
    {
        self.code_object.uses.as_slice()
    }
}

} // verus!
