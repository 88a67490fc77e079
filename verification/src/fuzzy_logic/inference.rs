//! Contract of an inference strategy: anything that can fuzzify a crisp
//! input vector and infer a crisp output from it.
use vstd::prelude::*;

verus! {

use crate::fuzzy_logic::errors::EvalError;

/// An inference system over fixed-point values. The two executable
/// methods are pinned to the system's own mathematical description
/// (`spec_fuzzified`, `spec_infer`), so an evaluation is a pure function
/// of the system and the inputs.
pub trait FuzzySystem: Sized {
    /// The system's internal invariant.
    spec fn sys_wf(&self) -> bool;

    /// How many crisp inputs the system expects.
    spec fn spec_n_inputs(&self) -> nat;

    /// The degree matrix: for each input variable, the membership
    /// degree of its crisp input in each of its sets.
    spec fn spec_fuzzified(&self, xs: Seq<i64>) -> Seq<Seq<int>>;

    /// The complete inference outcome for a crisp input vector.
    spec fn spec_infer(&self, xs: Seq<i64>) -> Result<i64, EvalError>;

    /// Fuzzify the inputs into the degree matrix.
    fn fuzzify(&self, input_values: &Vec<i64>) -> (r: Vec<Vec<i64>>)
        requires
            self.sys_wf(),
            input_values@.len() == self.spec_n_inputs(),
        ensures
            r@.len() == self.spec_fuzzified(input_values@).len(),
            forall|i: int|
                0 <= i < r@.len() ==> (#[trigger] r@[i])@.len() == self.spec_fuzzified(
                    input_values@,
                )[i].len(),
            forall|i: int, j: int|
                0 <= i < r@.len() && 0 <= j < r@[i]@.len() ==> (#[trigger] r@[i]@[j]) as int
                    == self.spec_fuzzified(input_values@)[i][j],
    ;

    /// Perform the inference process: fuzzification, rule evaluation,
    /// aggregation, defuzzification.
    fn infer(&self, input_values: &Vec<i64>) -> (r: Result<i64, EvalError>)
        requires
            self.sys_wf(),
        ensures
            r == self.spec_infer(input_values@),
    ;
}

} // verus!
