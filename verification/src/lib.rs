//! A fuzzy-logic trust evaluation library.
//!
//! The crate compiles Fuzzy Control Language (FCL) source text into an
//! executable Mamdani model and evaluates that model against concrete
//! numeric inputs, producing a single crisp output.
//!
//! All numeric quantities are fixed-point integers: an `i64` value `v`
//! stands for the real number `v / 1000`. Membership degrees range over
//! `[0, 1000]`, where `1000` stands for full membership (degree 1.0).
use vstd::prelude::*;

pub mod fuzzy_logic;

verus! {

use crate::fuzzy_logic::ast::{AstRoot, ast_root_wf, generate_ast, root_matches, syn_convertible};
use crate::fuzzy_logic::compiler::{compile_ast, compile_ok, model_from_ast};
use crate::fuzzy_logic::control_language::{SynFcl, fcl_matches, fcl_parser, sp_fcl, syn_fcl_wf};
use crate::fuzzy_logic::errors::{CompileError, EvalError, SemanticError};
use crate::fuzzy_logic::inference::FuzzySystem;
use crate::fuzzy_logic::lexer::{sl_ok, sl_tokens};
use crate::fuzzy_logic::mamdani::Mamdani;

/// Compile FCL source text into an executable Mamdani model: parse,
/// build the AST, and resolve it. The whole unit compiles or the first
/// error is returned; no partial model escapes.
///
/// The contract pins the outcome to the text: a syntax error comes
/// exactly when the text does not match the grammar; otherwise the
/// text determines a parse tree (`fcl_matches` forces its whole
/// content from the token stream), and the call succeeds exactly when
/// that tree converts and compiles, with the model its resolved
/// reading.
pub fn compile(text: &str) -> (r: Result<Mamdani, CompileError>)
    ensures
        r is Ok ==> r->Ok_0.wf(),
        (r matches Err(CompileError::Syntax(_))) <==> !(sl_ok(text@, 0) && sp_fcl(
            sl_tokens(text@, 0),
        ) is Some),
        r is Ok ==> exists|tree: SynFcl, root: AstRoot|
            {
                &&& #[trigger] fcl_matches(tree, sl_tokens(text@, 0))
                &&& syn_fcl_wf(tree)
                &&& syn_convertible(tree)
                &&& #[trigger] root_matches(root, tree)
                &&& ast_root_wf(root)
                &&& compile_ok(root)
                &&& model_from_ast(r->Ok_0, root)
            },
        r matches Err(CompileError::Semantic(_)) ==> exists|tree: SynFcl|
            {
                &&& #[trigger] fcl_matches(tree, sl_tokens(text@, 0))
                &&& syn_fcl_wf(tree)
                &&& (!syn_convertible(tree) || exists|root: AstRoot|
                    {
                        &&& #[trigger] root_matches(root, tree)
                        &&& ast_root_wf(root)
                        &&& !compile_ok(root)
                    })
            },
{
    let tree = match fcl_parser(text) {
        Ok(t) => t,
        Err(e) => {
            return Result::Err(CompileError::Syntax(e));
        },
    };
    proof {
        assert(fcl_matches(tree, sl_tokens(text@, 0)));
    }
    let root = match generate_ast(&tree) {
        Ok(a) => a,
        Err(e) => {
            return Result::Err(CompileError::Semantic(e));
        },
    };
    match compile_ast(&root) {
        Ok(m) => {
            proof {
                assert(root_matches(root, tree));
                assert(model_from_ast(m, root));
            }
            Result::Ok(m)
        },
        Err(e) => {
            proof {
                assert(root_matches(root, tree));
            }
            Result::Err(CompileError::Semantic(e))
        },
    }
}

/// Evaluate a compiled model against a crisp input vector. The result
/// is the model's mathematical inference outcome: it depends on the
/// model and the inputs alone. A wrong number of inputs is a
/// `DimensionMismatch`, a model without rules an `EmptyRuleSet`; both
/// leave the model usable.
pub fn evaluate(model: &Mamdani, inputs: &Vec<i64>) -> (r: Result<i64, EvalError>)
    requires
        model.wf(),
    ensures
        r == model.spec_infer(inputs@),
        (r == Result::<i64, EvalError>::Err(EvalError::DimensionMismatch)) <==> inputs@.len()
            != model.inputs@.len(),
        (r == Result::<i64, EvalError>::Err(EvalError::EmptyRuleSet)) <==> (inputs@.len()
            == model.inputs@.len() && model.rules@.len() == 0),
        (r is Ok) <==> (inputs@.len() == model.inputs@.len() && model.rules@.len() > 0),
{
    model.infer(inputs)
}

/// Law: evaluation is idempotent. Two evaluations of the same model on
/// identical inputs return identical results, since `evaluate` is
/// pinned to `spec_infer`, a function of the model and inputs alone.
pub proof fn lemma_evaluate_idempotent(
    model: Mamdani,
    inputs: Seq<i64>,
    r1: Result<i64, EvalError>,
    r2: Result<i64, EvalError>,
)
    requires
        r1 == model.spec_infer(inputs),
        r2 == model.spec_infer(inputs),
    ensures
        r1 == r2,
{
}

} // verus!
