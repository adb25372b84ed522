//! The module of builtin functions that every machine can load.

use vstd::prelude::*;
use vstd::string::StringExecFns;

use crate::code::{Builtin, Callable, CodeObject};
use crate::var::Variable;

use super::slots::lemma_slot_find_facts;
use super::Module;

verus! {

/// Create the module `std` of builtin functions: `input`, `len` and `print`.
pub fn create_standard_module() -> (r: Module)
    ensures
        r.code_object.name@ == "std"@,
        r.code_object.entries@.len() == 0,
        r.code_object.uses@.len() == 0,
        r.slots@.len() == 3,
        r.slots@[0].0@ == "input"@ && r.slots@[0].1 == Callable::Builtin(Builtin::Input),
        r.slots@[1].0@ == "len"@ && r.slots@[1].1 == Callable::Builtin(Builtin::Len),
        r.slots@[2].0@ == "print"@ && r.slots@[2].1 == Callable::Builtin(Builtin::Print),
{
    proof {
        reveal_strlit("input");
        reveal_strlit("len");
        reveal_strlit("print");
    }
    let mut module = Module::from(CodeObject::named(String::from_str("std")));
    module.slots.insert(Variable::from_str("input"), Callable::Builtin(Builtin::Input));
    proof {
        lemma_slot_find_facts(module.slots@, "len"@);
        assert("len"@.len() == 3 && "input"@.len() == 5);
    }
    module.slots.insert(Variable::from_str("len"), Callable::Builtin(Builtin::Len));
    proof {
        lemma_slot_find_facts(module.slots@, "print"@);
        assert("print"@.len() == 5 && "print"@[0] != "input"@[0]);
    }
    module.slots.insert(Variable::from_str("print"), Callable::Builtin(Builtin::Print));
    module
}

} // verus!
