//! Name, location and dependencies of a module.

use vstd::prelude::*;
use vstd::string::StringExecFns;

use crate::code::DEFAULT_MODULE_NAME;

verus! {

/// Name, location and dependencies of a module.
pub struct ModuleMeta {
    pub loc: Option<String>,
    pub name: String,
    pub uses: Vec<String>,
}

/// Names of a list of strings.
pub open spec fn names(s: Seq<String>) -> Seq<Seq<char>> {
    s.map_values(|x: String| x@)
}

impl ModuleMeta {
    /// Meta data with the given parts.
    pub fn new(name: String, loc: Option<String>, uses: Vec<String>) -> (r: ModuleMeta)
        ensures
            r.name == name,
            r.loc == loc,
            r.uses == uses,
    {
        ModuleMeta { loc, name, uses }
    }

    /// Replace the list of dependencies.
    pub fn set_uses(&mut self, uses: Vec<String>)
        ensures
            final(self).uses == uses,
            final(self).name == old(self).name,
            final(self).loc == old(self).loc,
    {
        self.uses = uses;
    }

    /// Meta data of a module that only has a name.
    pub fn from_name(name: String) -> (r: ModuleMeta)
        ensures
            r.name == name,
            r.loc is None,
            r.uses@.len() == 0,
    {
        ModuleMeta { loc: None, name, uses: Vec::new() }
    }
}

impl Default for ModuleMeta {
    /// Meta data of a module without name, location or dependencies.
    fn default() -> (r: ModuleMeta)
        ensures
            r.name@ == DEFAULT_MODULE_NAME@,
            r.loc is None,
            r.uses@.len() == 0,
    {
        ModuleMeta { loc: None, name: String::from_str(DEFAULT_MODULE_NAME), uses: Vec::new() }
    }
}

} // verus!
