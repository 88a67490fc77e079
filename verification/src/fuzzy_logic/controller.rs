//! A thin facade owning one compiled inference system and forwarding
//! evaluation calls to it.
use vstd::prelude::*;

verus! {

use crate::fuzzy_logic::errors::EvalError;
use crate::fuzzy_logic::inference::FuzzySystem;

/// Owns a compiled model of any strategy conforming to `FuzzySystem`
/// and exposes `evaluate`. Holds no state beyond the model, so repeated
/// evaluations with identical inputs return identical results.
pub struct FuzzyController<T: FuzzySystem> {
    pub infer: T,
}

impl<T: FuzzySystem> FuzzyController<T> {
    pub fn new(infer: T) -> (r: FuzzyController<T>)
        ensures
            r.infer == infer,
    {
        FuzzyController { infer }
    }

    /// Evaluate the owned model against a crisp input vector.
    pub fn evaluate(&self, input_values: &Vec<i64>) -> (r: Result<i64, EvalError>)
        requires
            self.infer.sys_wf(),
        ensures
            r == self.infer.spec_infer(input_values@),
    {
        self.infer.infer(input_values)
    }
}

} // verus!
