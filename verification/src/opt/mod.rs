//! Optimizers of the intermediate code.

use vstd::prelude::*;

pub mod standard;
pub mod steps;

pub use self::standard::StandardOptimizer;

use crate::lir::LirElement;

verus! {

/// An optimization pass over the intermediate code of a module.
pub trait Optimizer {
    /// Work on the complete code once it is lowered; by default the code
    /// stays as it is.
    fn postprocess(&mut self, code: &mut Vec<LirElement>)
        default_ensures
            final(code)@ == old(code)@,
    {
    }

    /// Work on the code after each element that was emitted; by default the
    /// code stays as it is.
    fn transform(&mut self, code: &mut Vec<LirElement>)
        default_ensures
            final(code)@ == old(code)@,
    {
    }

    /// How many elements from the end `transform` looks at when the given
    /// element was emitted last; by default none.
    fn scan_back_for(&self, elem: &LirElement) -> (r: usize)
        default_ensures
            r == 0,
    {
        0
    }
}

/// An optimizer that leaves the code as it is.
pub struct NoOptimizer;

impl Optimizer for NoOptimizer {

}

} // verus!
