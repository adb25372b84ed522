//! Modules as they come from a loader: compiled code or a shared object.

use vstd::prelude::*;

use crate::code::{entries_in_range, CodeObject};

use super::{entry_slots, Module};

verus! {

/// A module as a loader produces it.
pub enum LoadableModule {
    /// Compiled code of this machine.
    Lovm2(CodeObject),
    /// A shared object, already turned into a module by the host.
    Shared(Module),
}

impl LoadableModule {
    /// The module the machine works with: compiled code gets a slot for each
    /// of its entries.
    pub fn into_generic(self) -> (r: Module)
        requires
            self matches LoadableModule::Lovm2(co) ==> entries_in_range(co),
        ensures
            match self {
                LoadableModule::Lovm2(co) => *r.code_object == co && r.slots@ == entry_slots(
                    r.code_object,
                    co.entries@.len() as int,
                ),
                LoadableModule::Shared(m) => r == m,
            },
    {
        match self {
            LoadableModule::Lovm2(co) => Module::from(co),
            LoadableModule::Shared(m) => m,
        }
    }
}

} // verus!
