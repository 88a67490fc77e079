use rtee::compile;
use rtee::fuzzy_logic::errors::{CompileError, SemanticError};

fn semantic(src: &str) -> SemanticError {
    match compile(src) {
        Err(CompileError::Semantic(e)) => e,
        other => panic!("expected a semantic error, got {other:?}"),
    }
}

// Grammar mismatch: an unexpected character is a SyntaxError with its
// position.
#[test]
fn syntax_error_unexpected_character() {
    let err = match compile("VAR_INPUT @ END_VAR") {
        Err(CompileError::Syntax(e)) => e,
        other => panic!("expected a syntax error, got {other:?}"),
    };
    assert_eq!(err.line, 1);
    assert_eq!(err.found, "@");
}

// Positions are 1-based line and column of the offending character.
#[test]
fn syntax_error_position() {
    let err = match compile("VAR_INPUT\n  x@ REAL; END_VAR") {
        Err(CompileError::Syntax(e)) => e,
        other => panic!("expected a syntax error, got {other:?}"),
    };
    assert_eq!(err.line, 2);
    assert_eq!(err.col, 4);
    assert_eq!(err.found, "@");
}

// Grammar mismatch: a missing keyword is reported with what was
// expected.
#[test]
fn syntax_error_incomplete_block() {
    let r = compile("VAR_INPUT x: REAL;");
    assert!(matches!(r, Err(CompileError::Syntax(_))));
}

// A wrapped unit must end with END_FUNCTION_BLOCK and nothing after.
#[test]
fn syntax_error_trailing_tokens() {
    let r = rtee::fuzzy_logic::control_language::FCLParser::parse_fcl(
        "FUNCTION_BLOCK f VAR_OUTPUT y: REAL; END_VAR END_FUNCTION_BLOCK extra",
    );
    assert!(r.is_err());
}

// A minus sign must be followed by a digit.
#[test]
fn syntax_error_dangling_minus() {
    let r = compile("FUZZIFY x TERM lo := (- ,1); END_FUZZIFY");
    assert!(matches!(r, Err(CompileError::Syntax(_))));
}

// No VAR_OUTPUT declaration.
#[test]
fn missing_output_variable() {
    let e = semantic(
        "VAR_INPUT x: REAL; END_VAR \
         FUZZIFY x TERM lo := (0,1)(10,0); END_FUZZIFY \
         RULEBLOCK rb END_RULEBLOCK",
    );
    assert!(matches!(e, SemanticError::MissingOutputVariable));
}

// More than one output variable declared.
#[test]
fn multiple_output_variables() {
    let e = semantic(
        "VAR_INPUT x: REAL; END_VAR \
         VAR_OUTPUT y: REAL; z: REAL; END_VAR \
         FUZZIFY x TERM lo := (0,1)(10,0); END_FUZZIFY \
         DEFUZZIFY y TERM hi := (0,0)(10,1); METHOD: COG; END_DEFUZZIFY \
         RULEBLOCK rb END_RULEBLOCK",
    );
    assert!(matches!(e, SemanticError::MultipleOutputVariables));
}

// Two declared variables share a name.
#[test]
fn duplicate_variable_name() {
    let e = semantic(
        "VAR_INPUT x: REAL; x: REAL; END_VAR \
         VAR_OUTPUT y: REAL; END_VAR \
         FUZZIFY x TERM lo := (0,1)(10,0); END_FUZZIFY \
         DEFUZZIFY y TERM hi := (0,0)(10,1); METHOD: COG; END_DEFUZZIFY \
         RULEBLOCK rb END_RULEBLOCK",
    );
    assert!(matches!(e, SemanticError::DuplicateVariableName(_)));
}

// Two terms of the same variable share a name.
#[test]
fn duplicate_term_name() {
    let e = semantic(
        "VAR_INPUT x: REAL; END_VAR \
         VAR_OUTPUT y: REAL; END_VAR \
         FUZZIFY x TERM lo := (0,1)(10,0); TERM lo := (0,0)(10,1); END_FUZZIFY \
         DEFUZZIFY y TERM hi := (0,0)(10,1); METHOD: COG; END_DEFUZZIFY \
         RULEBLOCK rb END_RULEBLOCK",
    );
    assert!(matches!(e, SemanticError::DuplicateTermName(_)));
}

// A FUZZIFY block naming an undeclared variable.
#[test]
fn unknown_variable_in_block() {
    let e = semantic(
        "VAR_INPUT x: REAL; END_VAR \
         VAR_OUTPUT y: REAL; END_VAR \
         FUZZIFY z TERM lo := (0,1)(10,0); END_FUZZIFY \
         DEFUZZIFY y TERM hi := (0,0)(10,1); METHOD: COG; END_DEFUZZIFY \
         RULEBLOCK rb END_RULEBLOCK",
    );
    assert!(matches!(e, SemanticError::UnknownVariable(_)));
}

// A rule naming a term its variable does not define.
#[test]
fn unknown_term_in_rule() {
    let e = semantic(
        "VAR_INPUT x: REAL; END_VAR \
         VAR_OUTPUT y: REAL; END_VAR \
         FUZZIFY x TERM lo := (0,1)(10,0); END_FUZZIFY \
         DEFUZZIFY y TERM hi := (0,0)(10,1); METHOD: COG; END_DEFUZZIFY \
         RULEBLOCK rb RULE 1: IF x IS warm THEN y IS hi; END_RULEBLOCK",
    );
    assert!(matches!(e, SemanticError::UnknownTerm(_)));
}

// A declared variable with no term definitions.
#[test]
fn missing_term_definitions() {
    let e = semantic(
        "VAR_INPUT x: REAL; END_VAR \
         VAR_OUTPUT y: REAL; END_VAR \
         DEFUZZIFY y TERM hi := (0,0)(10,1); METHOD: COG; END_DEFUZZIFY \
         RULEBLOCK rb END_RULEBLOCK",
    );
    assert!(matches!(e, SemanticError::MissingTermDefinitions(_)));
}

// A rule whose clause count differs from the declared inputs.
#[test]
fn rule_arity_mismatch() {
    let e = semantic(
        "VAR_INPUT x: REAL; w: REAL; END_VAR \
         VAR_OUTPUT y: REAL; END_VAR \
         FUZZIFY x TERM lo := (0,1)(10,0); END_FUZZIFY \
         FUZZIFY w TERM lo := (0,1)(10,0); END_FUZZIFY \
         DEFUZZIFY y TERM hi := (0,0)(10,1); METHOD: COG; END_DEFUZZIFY \
         RULEBLOCK rb RULE 1: IF x IS lo THEN y IS hi; END_RULEBLOCK",
    );
    assert!(matches!(e, SemanticError::RuleArityMismatch));
}

// OR between antecedent clauses is accepted by the grammar but has no
// defined combination semantics, so compilation rejects it.
#[test]
fn disjunction_unsupported() {
    let e = semantic(
        "VAR_INPUT x: REAL; w: REAL; END_VAR \
         VAR_OUTPUT y: REAL; END_VAR \
         FUZZIFY x TERM lo := (0,1)(10,0); END_FUZZIFY \
         FUZZIFY w TERM lo := (0,1)(10,0); END_FUZZIFY \
         DEFUZZIFY y TERM hi := (0,0)(10,1); METHOD: COG; END_DEFUZZIFY \
         RULEBLOCK rb RULE 1: IF x IS lo OR w IS lo THEN y IS hi; END_RULEBLOCK",
    );
    assert!(matches!(e, SemanticError::DisjunctionUnsupported));
}

// A defuzzification method other than COG.
#[test]
fn unknown_defuzz_method() {
    let e = semantic(
        "VAR_INPUT x: REAL; END_VAR \
         VAR_OUTPUT y: REAL; END_VAR \
         FUZZIFY x TERM lo := (0,1)(10,0); END_FUZZIFY \
         DEFUZZIFY y TERM hi := (0,0)(10,1); METHOD: COA; END_DEFUZZIFY \
         RULEBLOCK rb RULE 1: IF x IS lo THEN y IS hi; END_RULEBLOCK",
    );
    assert!(matches!(e, SemanticError::UnknownDefuzzMethod(_)));
}

// A rule block operator other than AND: MIN; or ACCU: MAX; is
// rejected: the engine implements no other combination semantics.
#[test]
fn unsupported_operator() {
    let e = semantic(
        "VAR_INPUT x: REAL; END_VAR \
         VAR_OUTPUT y: REAL; END_VAR \
         FUZZIFY x TERM lo := (0,1)(10,0); END_FUZZIFY \
         DEFUZZIFY y TERM hi := (0,0)(10,1); METHOD: COG; END_DEFUZZIFY \
         RULEBLOCK rb AND: PROD; RULE 1: IF x IS lo THEN y IS hi; END_RULEBLOCK",
    );
    assert!(matches!(e, SemanticError::UnsupportedOperator(_)));
}

// The two standard operator declarations compile.
#[test]
fn standard_operators_accepted() {
    let r = compile(
        "VAR_INPUT x: REAL; END_VAR \
         VAR_OUTPUT y: REAL; END_VAR \
         FUZZIFY x TERM lo := (0,1)(10,0); END_FUZZIFY \
         DEFUZZIFY y TERM hi := (0,0)(10,1); METHOD: COG; END_DEFUZZIFY \
         RULEBLOCK rb AND: MIN; ACCU: MAX; RULE 1: IF x IS lo THEN y IS hi; END_RULEBLOCK",
    );
    assert!(r.is_ok());
}

// A type keyword other than REAL or BOOL.
#[test]
fn unknown_type_keyword() {
    let e = semantic(
        "VAR_INPUT x: FLOAT; END_VAR \
         VAR_OUTPUT y: REAL; END_VAR \
         FUZZIFY x TERM lo := (0,1)(10,0); END_FUZZIFY \
         DEFUZZIFY y TERM hi := (0,0)(10,1); METHOD: COG; END_DEFUZZIFY \
         RULEBLOCK rb END_RULEBLOCK",
    );
    assert!(matches!(e, SemanticError::UnknownTypeKeyword(_)));
}

// A literal with more precision than three fractional digits cannot be
// represented.
#[test]
fn bad_number_literal() {
    let e = semantic(
        "VAR_INPUT x: REAL; END_VAR \
         VAR_OUTPUT y: REAL; END_VAR \
         FUZZIFY x TERM lo := (0,0.12345)(10,0); END_FUZZIFY \
         DEFUZZIFY y TERM hi := (0,0)(10,1); METHOD: COG; END_DEFUZZIFY \
         RULEBLOCK rb END_RULEBLOCK",
    );
    assert!(matches!(e, SemanticError::BadNumberLiteral(_)));
}

// Trailing fractional zeros beyond three places are representable.
#[test]
fn long_zero_fraction_accepted() {
    let r = compile(
        "VAR_INPUT x: REAL; END_VAR \
         VAR_OUTPUT y: REAL; END_VAR \
         FUZZIFY x TERM lo := (0,0.50000)(10,0); END_FUZZIFY \
         DEFUZZIFY y TERM hi := (0,0)(10,1); METHOD: COG; END_DEFUZZIFY \
         RULEBLOCK rb RULE 1: IF x IS lo THEN y IS hi; END_RULEBLOCK",
    );
    assert!(r.is_ok());
}
