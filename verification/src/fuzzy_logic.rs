//! Fuzzy-logic core: membership functions, fuzzy sets and variables,
//! rules, and the FCL front end that compiles source text into an
//! executable Mamdani model.
use vstd::prelude::*;

pub mod ast;
pub mod compiler;
pub mod control_language;
pub mod controller;
pub mod errors;
pub mod functions;
pub mod inference;
pub mod lexer;
pub mod mamdani;

verus! {

use crate::fuzzy_logic::functions::MembershipFunction;

/// How the crisp output is produced from the aggregated activations.
/// The only supported method is the centre-of-gravity reduction: the
/// activation-weighted average of the output sets' representative
/// coordinates.
#[derive(Clone, Copy, Debug, PartialEq, Eq, Structural)]
pub enum DefuzzMethod {
    CentreOfGravity,
}

/// A named fuzzy set: a name and the membership function it stands for.
/// Name uniqueness is scoped to the owning variable.
#[derive(Clone, Debug)]
pub struct FuzzySet {
    pub name: String,
    pub membership_fn: MembershipFunction,
}

impl FuzzySet {
    /// A fuzzy set is well formed when its membership function is.
    pub open spec fn wf(&self) -> bool {
        self.membership_fn.wf()
    }

    pub fn new(name: String, membership_fn: MembershipFunction) -> (r: FuzzySet)
        ensures
            r.name == name,
            r.membership_fn == membership_fn,
    {
        FuzzySet { name, membership_fn }
    }

    /// Evaluate the membership degree of `value` in this set.
    pub fn membership(&self, value: i64) -> (r: i64)
        requires
            self.wf(),
            -functions::COORD_MAX <= value <= functions::COORD_MAX,
        ensures
            r == self.membership_fn.spec_mem(value as int),
            0 <= r <= functions::SCALE,
    {
        self.membership_fn.membership(value)
    }
}

/// A fuzzy variable: a name and the ordered fuzzy sets defined over its
/// universe of discourse. Input variables carry no defuzzification
/// method; the output variable carries one.
#[derive(Clone, Debug)]
pub struct FuzzyVariable {
    pub name: String,
    pub sets: Vec<FuzzySet>,
    pub defuzz: Option<DefuzzMethod>,
}

impl FuzzyVariable {
    /// Non-empty sets, pairwise-distinct set names, well-formed shapes.
    pub open spec fn wf(&self) -> bool {
        &&& self.sets@.len() >= 1
        &&& forall|i: int| 0 <= i < self.sets@.len() ==> (#[trigger] self.sets@[i]).wf()
        &&& forall|i: int, j: int|
            0 <= i < j < self.sets@.len() ==> (#[trigger] self.sets@[i]).name@ != (
            #[trigger] self.sets@[j]).name@
    }

    pub fn new(name: String, sets: Vec<FuzzySet>, defuzz: Option<DefuzzMethod>) -> (r:
        FuzzyVariable)
        ensures
            r.name == name,
            r.sets == sets,
            r.defuzz == defuzz,
    {
        FuzzyVariable { name, sets, defuzz }
    }
}

/// An executable rule of a compiled model. Set references are resolved
/// to indices: `antecedents[i]` names the set of input variable `i`
/// whose degree enters the rule's conjunction, and `consequent` names a
/// set of the output variable.
#[derive(Clone, Debug)]
pub struct Rule {
    pub antecedents: Vec<usize>,
    pub consequent: usize,
}

impl Rule {
    pub fn new(antecedents: Vec<usize>, consequent: usize) -> (r: Rule)
        ensures
            r.antecedents == antecedents,
            r.consequent == consequent,
    {
        Rule { antecedents, consequent }
    }
}

} // verus!
