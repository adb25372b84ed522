//! Low level intermediate code, between function bodies and bytecode.

use vstd::prelude::*;

use crate::value::{Value, ValueV};
use crate::var::Variable;

verus! {

/// Operators with one operand.
#[derive(Clone, Copy, PartialEq, Eq, Structural)]
pub enum Operator1 {
    Not,
}

/// Operators with two operands.
#[derive(Clone, Copy, PartialEq, Eq, Structural)]
pub enum Operator2 {
    Add,
    Sub,
    Mul,
    Div,
    Pow,
    Rem,
    And,
    Or,
    Equal,
    NotEqual,
    GreaterEqual,
    GreaterThan,
    LessEqual,
    LessThan,
}

/// An operator of the intermediate code.
#[derive(Clone, Copy, PartialEq, Eq, Structural)]
pub enum Operator {
    Operator1(Operator1),
    Operator2(Operator2),
}

/// One element of the intermediate code.
pub enum LirElement {
    /// Start of a function.
    Entry { name: Variable },
    /// Target of jumps.
    Label(u64),
    /// Jump to a label; with a condition only where the popped value has
    /// that truth value.
    Jump { condition: Option<bool>, label: u64 },
    Ret,
    Operation(Operator),
    PushConstant { value: Value },
    /// Push a variable's value.
    PushDynamic { ident: Variable },
    /// Pop into a variable.
    StoreDynamic { ident: Variable },
    /// Call a function with the given number of arguments.
    Call { argn: u8, ident: Variable },
}

/// Mathematical view of [LirElement].
pub enum LirV {
    Entry { name: Seq<char> },
    Label(u64),
    Jump { condition: Option<bool>, label: u64 },
    Ret,
    Operation(Operator),
    PushConstant { value: ValueV },
    PushDynamic { ident: Seq<char> },
    StoreDynamic { ident: Seq<char> },
    Call { argn: u8, ident: Seq<char> },
}

impl View for LirElement {
    type V = LirV;

    open spec fn view(&self) -> LirV {
        match self {
            LirElement::Entry { name } => LirV::Entry { name: name@ },
            LirElement::Label(l) => LirV::Label(*l),
            LirElement::Jump { condition, label } => LirV::Jump { condition: *condition, label: *label },
            LirElement::Ret => LirV::Ret,
            LirElement::Operation(op) => LirV::Operation(*op),
            LirElement::PushConstant { value } => LirV::PushConstant { value: value@ },
            LirElement::PushDynamic { ident } => LirV::PushDynamic { ident: ident@ },
            LirElement::StoreDynamic { ident } => LirV::StoreDynamic { ident: ident@ },
            LirElement::Call { argn, ident } => LirV::Call { argn: *argn, ident: ident@ },
        }
    }
}

/// Views of a sequence of elements.
pub open spec fn lir_v(code: Seq<LirElement>) -> Seq<LirV> {
    code.map_values(|e: LirElement| e@)
}

} // verus!
