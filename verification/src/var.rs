//! Identifiers of functions and variables.

use vstd::prelude::*;
use vstd::string::StringExecFns;
use vstd::std_specs::cmp::PartialEqSpecImpl;

verus! {

/// A thin wrapper around an identifier name. Strings and variables are kept
/// apart: a variable cannot be pushed onto the value stack.
pub struct Variable(pub String);

/// Name of [Variable] in the newer interface.
pub type LV2Variable = Variable;

impl View for Variable {
    type V = Seq<char>;

    open spec fn view(&self) -> Seq<char> {
        self.0@
    }
}

impl PartialEq for Variable {
    fn eq(&self, other: &Self) -> (r: bool) {
        self.0 == other.0
    }
}

impl PartialEqSpecImpl for Variable {
    open spec fn obeys_eq_spec() -> bool {
        true
    }

    open spec fn eq_spec(&self, other: &Self) -> bool {
        self@ == other@
    }
}

impl Variable {
    /// Variable of the given name.
    pub fn from_str(name: &str) -> (r: Variable)
        ensures
            r@ == name@,
    {
        Variable(String::from_str(name))
    }

    /// Variable taking ownership of the given name.
    pub fn from_string(name: String) -> (r: Variable)
        ensures
            r@ == name@,
    {
        Variable(name)
    }

    /// The UTF-8 bytes of the name.
    pub fn as_bytes(&self) -> (r: &[u8])
        ensures
            r@ == vstd::utf8::encode_utf8(self@),
    {
        self.0.as_str().as_bytes()
    }

    /// The name.
    pub fn as_ref(&self) -> (r: &str)
        ensures
            r@ == self@,
    {
        self.0.as_str()
    }

    /// Copy of the variable.
    pub fn duplicate(&self) -> (r: Variable)
        ensures
            r == *self,
    {
        Variable(self.0.clone())
    }

    /// Whether the variable has the given name.
    pub fn is_named(&self, name: &str) -> (r: bool)
        ensures
            r == (self@ == name@),
    {
        let other = String::from_str(name);
        self.0 == other
    }
}

} // verus!
