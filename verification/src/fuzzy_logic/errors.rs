//! Error taxonomy of the pipeline: syntax errors from parsing, semantic
//! errors from AST building and compilation, evaluation errors from the
//! inference engine. Every stage returns a typed result; no stage
//! panics.
use vstd::prelude::*;

verus! {

/// A grammar mismatch. Carries the source position (1-based line and
/// column) of the offending input and a description of what was
/// expected and what was found.
#[derive(Clone, Debug)]
pub struct SyntaxError {
    pub line: usize,
    pub col: usize,
    pub expected: String,
    pub found: String,
}

/// A name-resolution or validation failure raised while building the
/// AST or compiling it. Compilation aborts on the first one.
#[derive(Clone, Debug)]
pub enum SemanticError {
    /// A block or rule refers to a variable that is not declared (or is
    /// declared with the wrong role).
    UnknownVariable(String),
    /// A rule refers to a term that the corresponding variable does not
    /// define.
    UnknownTerm(String),
    /// No output variable is declared.
    MissingOutputVariable,
    /// More than one output variable is declared.
    MultipleOutputVariables,
    /// Two terms of the same variable share a name.
    DuplicateTermName(String),
    /// Two declared variables share a name.
    DuplicateVariableName(String),
    /// A term envelope has non-increasing x-coordinates, a degree
    /// outside `[0, 1]`, or a coordinate out of range.
    MalformedEnvelope(String),
    /// A numeric literal cannot be represented: too many fractional
    /// digits or magnitude out of range.
    BadNumberLiteral(String),
    /// A variable declaration uses a type keyword other than `REAL` or
    /// `BOOL`.
    UnknownTypeKeyword(String),
    /// A declared variable has no term definitions, so its set list
    /// would be empty.
    MissingTermDefinitions(String),
    /// A rule's antecedent clause count differs from the number of
    /// declared input variables.
    RuleArityMismatch,
    /// A rule combines antecedent clauses with `OR`, whose combination
    /// semantics this engine does not define.
    DisjunctionUnsupported,
    /// A `METHOD` declaration names a defuzzification method other than
    /// `COG`.
    UnknownDefuzzMethod(String),
    /// A rule block declares an operator other than `AND: MIN;` or
    /// `ACCU: MAX;`, the only combination and accumulation semantics
    /// this engine implements.
    UnsupportedOperator(String),
}

/// A per-evaluation failure. The model is not invalidated: subsequent
/// calls with valid inputs still succeed.
#[derive(Clone, Copy, Debug, PartialEq, Eq, Structural)]
pub enum EvalError {
    /// The number of inputs differs from the number of input variables.
    DimensionMismatch,
    /// The model holds no rules.
    EmptyRuleSet,
}

/// Everything that can go wrong between source text and compiled model.
#[derive(Clone, Debug)]
pub enum CompileError {
    Syntax(SyntaxError),
    Semantic(SemanticError),
}

} // verus!
