use rtee::compile;
use rtee::evaluate;
use rtee::fuzzy_logic::errors::{CompileError, EvalError, SemanticError};
use rtee::fuzzy_logic::functions::{triangular, trapezoidal, MembershipFunction};
use rtee::fuzzy_logic::FuzzySet;

// One input variable with two terms, one output variable with two
// terms, one rule: compiling yields a one-input, one-rule model, and
// evaluating at the antecedent term's peak fires the rule fully, so
// the crisp output is the consequent set's representative point.
#[test]
fn minimal_function_block_round_trip() {
    let src = "VAR_INPUT x: REAL; END_VAR \
               VAR_OUTPUT y: REAL; END_VAR \
               FUZZIFY x TERM low := (0,1)(10,0); TERM high := (0,0)(10,1); END_FUZZIFY \
               DEFUZZIFY y TERM small := (0,1)(10,0); TERM big := (0,0)(10,1); METHOD: COG; END_DEFUZZIFY \
               RULEBLOCK rb RULE 1: IF x IS low THEN y IS big; END_RULEBLOCK";
    let model = match compile(src) {
        Ok(m) => m,
        Err(e) => panic!("compile failed: {e:?}"),
    };
    assert_eq!(model.inputs.len(), 1);
    assert_eq!(model.rules.len(), 1);
    // x = 0 is the peak of `low` (degree 1.0), so the rule fires at
    // strength 1.0 and the output is driven to `big`'s representative
    // point, x = 10 (10_000 in fixed point).
    let out = evaluate(&model, &vec![0]);
    assert_eq!(out, Ok(10_000));
}

// The concrete scenario: at x = 0 the term `lo` has degree 1.0, rule 1
// fires at strength 1.0, the aggregated activation of `hi` is 1.0, and
// the output is driven to `hi`'s representative point.
#[test]
fn concrete_scenario_full_activation() {
    let src = "VAR_INPUT x: REAL; END_VAR \
               VAR_OUTPUT y: REAL; END_VAR \
               FUZZIFY x TERM lo := (0,1)(10,0); END_FUZZIFY \
               DEFUZZIFY y TERM hi := (0,0)(10,1); METHOD: COG; END_DEFUZZIFY \
               RULEBLOCK r1 RULE 1: IF x IS lo THEN y IS hi; END_RULEBLOCK";
    let model = compile(src).unwrap();
    let out = evaluate(&model, &vec![0]);
    // hi's representative point is x = 10 (10_000 fixed point).
    assert_eq!(out, Ok(10_000));
    // Halfway down lo's slope the output still sits at hi's
    // representative point (a single output set), but the rule fires
    // at strength 0.5; the model stays usable.
    let out2 = evaluate(&model, &vec![5_000]);
    assert_eq!(out2, Ok(10_000));
}

// Evaluating twice with identical inputs returns bit-identical
// results: there is no hidden mutable state.
#[test]
fn evaluate_is_idempotent() {
    let src = "VAR_INPUT x: REAL; END_VAR \
               VAR_OUTPUT y: REAL; END_VAR \
               FUZZIFY x TERM lo := (0,1)(10,0); TERM hi := (0,0)(10,1); END_FUZZIFY \
               DEFUZZIFY y TERM off := (0,1)(5,0); TERM on := (5,0)(10,1); METHOD: COG; END_DEFUZZIFY \
               RULEBLOCK rb RULE 1: IF x IS lo THEN y IS off; RULE 2: IF x IS hi THEN y IS on; END_RULEBLOCK";
    let model = compile(src).unwrap();
    let inputs = vec![3_333];
    let a = evaluate(&model, &inputs);
    let b = evaluate(&model, &inputs);
    assert_eq!(a, b);
    let c = evaluate(&model, &vec![3_333]);
    assert_eq!(a, c);
}

// A wrong number of inputs always fails with DimensionMismatch and
// never panics; later calls with valid inputs still succeed.
#[test]
fn dimension_mismatch() {
    let src = "VAR_INPUT x: REAL; END_VAR \
               VAR_OUTPUT y: REAL; END_VAR \
               FUZZIFY x TERM lo := (0,1)(10,0); END_FUZZIFY \
               DEFUZZIFY y TERM hi := (0,0)(10,1); METHOD: COG; END_DEFUZZIFY \
               RULEBLOCK r1 RULE 1: IF x IS lo THEN y IS hi; END_RULEBLOCK";
    let model = compile(src).unwrap();
    assert_eq!(evaluate(&model, &vec![]), Err(EvalError::DimensionMismatch));
    assert_eq!(evaluate(&model, &vec![0, 0]), Err(EvalError::DimensionMismatch));
    assert!(evaluate(&model, &vec![0]).is_ok());
}

// A model whose rule block is empty evaluates to EmptyRuleSet.
#[test]
fn empty_rule_set() {
    let src = "VAR_INPUT x: REAL; END_VAR \
               VAR_OUTPUT y: REAL; END_VAR \
               FUZZIFY x TERM lo := (0,1)(10,0); END_FUZZIFY \
               DEFUZZIFY y TERM hi := (0,0)(10,1); METHOD: COG; END_DEFUZZIFY \
               RULEBLOCK rb END_RULEBLOCK";
    let model = compile(src).unwrap();
    assert_eq!(evaluate(&model, &vec![0]), Err(EvalError::EmptyRuleSet));
}

// An input with zero membership in every set is not an error: every
// rule fires at strength 0 and the crisp output falls back to 0.
#[test]
fn zero_activation_yields_zero() {
    let src = "VAR_INPUT x: REAL; END_VAR \
               VAR_OUTPUT y: REAL; END_VAR \
               FUZZIFY x TERM lo := (0,1)(10,0); END_FUZZIFY \
               DEFUZZIFY y TERM hi := (0,0)(10,1); METHOD: COG; END_DEFUZZIFY \
               RULEBLOCK r1 RULE 1: IF x IS lo THEN y IS hi; END_RULEBLOCK";
    let model = compile(src).unwrap();
    // Beyond the right foot of `lo` its degree is 0.
    assert_eq!(evaluate(&model, &vec![10_000]), Ok(0));
    assert_eq!(evaluate(&model, &vec![50_000]), Ok(0));
}

// Non-increasing x-coordinates in a term envelope fail compilation
// with MalformedEnvelope.
#[test]
fn malformed_envelope_rejected() {
    let src = "VAR_INPUT x: REAL; END_VAR \
               VAR_OUTPUT y: REAL; END_VAR \
               FUZZIFY x TERM bad := (5,1)(0,0); END_FUZZIFY \
               DEFUZZIFY y TERM hi := (0,0)(10,1); METHOD: COG; END_DEFUZZIFY \
               RULEBLOCK rb RULE 1: IF x IS bad THEN y IS hi; END_RULEBLOCK";
    let err = compile(src).unwrap_err();
    assert!(matches!(
        err,
        CompileError::Semantic(SemanticError::MalformedEnvelope(_))
    ));
}

// A degree outside [0, 1] is a malformed envelope too.
#[test]
fn envelope_degree_out_of_range_rejected() {
    let src = "VAR_INPUT x: REAL; END_VAR \
               VAR_OUTPUT y: REAL; END_VAR \
               FUZZIFY x TERM bad := (0,2)(10,0); END_FUZZIFY \
               DEFUZZIFY y TERM hi := (0,0)(10,1); METHOD: COG; END_DEFUZZIFY \
               RULEBLOCK rb RULE 1: IF x IS bad THEN y IS hi; END_RULEBLOCK";
    let err = compile(src).unwrap_err();
    assert!(matches!(
        err,
        CompileError::Semantic(SemanticError::MalformedEnvelope(_))
    ));
}

// Membership degrees of the triangular shape at exact points. Values
// are fixed point: 1000 is the degree 1.0.
#[test]
fn triangular_membership_values() {
    let tri = triangular(0, 5_000, 10_000);
    let set = FuzzySet::new("mid".to_string(), tri);
    assert_eq!(set.membership(0), 0);
    assert_eq!(set.membership(5_000), 1_000);
    assert_eq!(set.membership(10_000), 0);
    assert_eq!(set.membership(2_500), 500);
    assert_eq!(set.membership(7_500), 500);
    assert_eq!(set.membership(-1_000), 0);
    assert_eq!(set.membership(11_000), 0);
}

// Membership degrees of the trapezoidal shape at exact points.
#[test]
fn trapezoidal_membership_values() {
    let trap = trapezoidal(0, 2_000, 8_000, 10_000);
    let set = FuzzySet::new("plateau".to_string(), trap);
    assert_eq!(set.membership(0), 0);
    assert_eq!(set.membership(1_000), 500);
    assert_eq!(set.membership(2_000), 1_000);
    assert_eq!(set.membership(5_000), 1_000);
    assert_eq!(set.membership(8_000), 1_000);
    assert_eq!(set.membership(9_000), 500);
    assert_eq!(set.membership(10_000), 0);
}

// Degenerate triangular parameters collapse a side to a step without
// dividing by zero.
#[test]
fn triangular_degenerate_sides() {
    let left_step = FuzzySet::new("ls".to_string(), triangular(0, 0, 10_000));
    assert_eq!(left_step.membership(0), 0);
    assert_eq!(left_step.membership(5_000), 500);
    let right_step = FuzzySet::new("rs".to_string(), triangular(0, 10_000, 10_000));
    assert_eq!(right_step.membership(5_000), 500);
    assert_eq!(right_step.membership(10_000), 0);
}

// A piecewise-linear envelope clamps to its end degrees outside the
// breakpoints and interpolates between them.
#[test]
fn piecewise_linear_membership_values() {
    let src = "VAR_INPUT t: REAL; END_VAR \
               VAR_OUTPUT h: REAL; END_VAR \
               FUZZIFY t TERM cold := (-20,1)(-10,1)(0,0); END_FUZZIFY \
               DEFUZZIFY h TERM on := (0,0)(10,1); METHOD: COG; END_DEFUZZIFY \
               RULEBLOCK rb RULE 1: IF t IS cold THEN h IS on; END_RULEBLOCK";
    let model = compile(src).unwrap();
    let cold = &model.inputs[0].sets[0];
    assert_eq!(cold.membership(-30_000), 1_000); // left of the envelope
    assert_eq!(cold.membership(-20_000), 1_000);
    assert_eq!(cold.membership(-15_000), 1_000); // plateau
    assert_eq!(cold.membership(-5_000), 500); // halfway down
    assert_eq!(cold.membership(0), 0);
    assert_eq!(cold.membership(5_000), 0); // right of the envelope
}

// Fractional literals parse exactly into fixed point: 22.5 becomes
// 22_500, 0.5 becomes 500.
#[test]
fn fractional_literals() {
    let src = "VAR_INPUT x: REAL; END_VAR \
               VAR_OUTPUT y: REAL; END_VAR \
               FUZZIFY x TERM lo := (0,0.5)(22.5,0); END_FUZZIFY \
               DEFUZZIFY y TERM hi := (0,0)(10,1); METHOD: COG; END_DEFUZZIFY \
               RULEBLOCK rb RULE 1: IF x IS lo THEN y IS hi; END_RULEBLOCK";
    let model = compile(src).unwrap();
    let lo = &model.inputs[0].sets[0];
    assert_eq!(lo.membership(0), 500);
    assert_eq!(lo.membership(22_500), 0);
    // Halfway along the segment, half of the 0.5 starting degree.
    assert_eq!(lo.membership(11_250), 250);
}

// A two-input model: rule strengths are the minimum of the clause
// degrees, and the aggregated activation of an output set is the
// maximum strength over the rules that conclude in it.
#[test]
fn two_input_inference_exact() {
    let src = "VAR_INPUT t: REAL; h: REAL; END_VAR \
               VAR_OUTPUT o: REAL; END_VAR \
               FUZZIFY t TERM cold := (0,1)(10,0); TERM warm := (0,0)(10,1); END_FUZZIFY \
               FUZZIFY h TERM dry := (0,1)(10,0); TERM wet := (0,0)(10,1); END_FUZZIFY \
               DEFUZZIFY o TERM low := (0,1)(10,0); TERM high := (0,0)(10,1); METHOD: COG; END_DEFUZZIFY \
               RULEBLOCK rb \
                 AND: MIN; \
                 ACCU: MAX; \
                 RULE 1: IF t IS cold AND h IS dry THEN o IS low; \
                 RULE 2: IF t IS warm AND h IS wet THEN o IS high; \
               END_RULEBLOCK";
    let model = compile(src).unwrap();
    // t = 2.5, h = 7.5: cold = 0.75, warm = 0.25, dry = 0.25,
    // wet = 0.75. Rule 1 fires at min(0.75, 0.25) = 0.25, rule 2 at
    // min(0.25, 0.75) = 0.25. Representative points are 0 (low) and
    // 10 (high), so the weighted average is 5.
    assert_eq!(evaluate(&model, &vec![2_500, 7_500]), Ok(5_000));

    // With a third rule the activation of `low` becomes
    // max(0.25, min(0.75, 0.75)) = 0.75, and the weighted average is
    // (0.75 * 0 + 0.25 * 10) / 1.0 = 2.5.
    let src3 = "VAR_INPUT t: REAL; h: REAL; END_VAR \
               VAR_OUTPUT o: REAL; END_VAR \
               FUZZIFY t TERM cold := (0,1)(10,0); TERM warm := (0,0)(10,1); END_FUZZIFY \
               FUZZIFY h TERM dry := (0,1)(10,0); TERM wet := (0,0)(10,1); END_FUZZIFY \
               DEFUZZIFY o TERM low := (0,1)(10,0); TERM high := (0,0)(10,1); METHOD: COG; END_DEFUZZIFY \
               RULEBLOCK rb \
                 RULE 1: IF t IS cold AND h IS dry THEN o IS low; \
                 RULE 2: IF t IS warm AND h IS wet THEN o IS high; \
                 RULE 3: IF t IS cold AND h IS wet THEN o IS low; \
               END_RULEBLOCK";
    let model3 = compile(src3).unwrap();
    assert_eq!(evaluate(&model3, &vec![2_500, 7_500]), Ok(2_500));
}

// The five-shape library exposes the two piecewise-linear shapes as
// tagged membership functions.
#[test]
fn shape_constructors() {
    let tri = triangular(-1_000, 0, 1_000);
    assert!(matches!(tri, MembershipFunction::Triangular { .. }));
    let trap = trapezoidal(-1_000, 0, 1_000, 2_000);
    assert!(matches!(trap, MembershipFunction::Trapezoidal { .. }));
}
