use rtee::fuzzy_logic::controller::FuzzyController;
use rtee::fuzzy_logic::functions::triangular;
use rtee::fuzzy_logic::inference::FuzzySystem;
use rtee::fuzzy_logic::mamdani::Mamdani;
use rtee::fuzzy_logic::{DefuzzMethod, FuzzySet, FuzzyVariable, Rule};

fn trust_sets() -> Vec<FuzzySet> {
    vec![
        FuzzySet::new("low".to_string(), triangular(0, 0, 5_000)),
        FuzzySet::new("medium".to_string(), triangular(0, 5_000, 10_000)),
        FuzzySet::new("high".to_string(), triangular(5_000, 10_000, 10_000)),
    ]
}

// Build a two-input trust model directly from sets, variables and
// rules, evaluate it through the controller, and check the output is
// a crisp value within the output universe.
#[test]
fn programmatic_trust_model() {
    let reputation = FuzzyVariable::new("reputation".to_string(), trust_sets(), None);
    let history = FuzzyVariable::new("transaction_history".to_string(), trust_sets(), None);
    let trust_level = FuzzyVariable::new(
        "trust_level".to_string(),
        trust_sets(),
        Some(DefuzzMethod::CentreOfGravity),
    );
    // Antecedents are set indices per input variable in order
    // (0 = low, 1 = medium, 2 = high); the consequent indexes the
    // output sets.
    let rules = vec![
        Rule::new(vec![0, 0], 0),
        Rule::new(vec![0, 1], 0),
        Rule::new(vec![1, 0], 0),
        Rule::new(vec![1, 1], 1),
        Rule::new(vec![2, 0], 1),
        Rule::new(vec![0, 2], 1),
        Rule::new(vec![2, 1], 2),
        Rule::new(vec![1, 2], 2),
        Rule::new(vec![2, 2], 2),
    ];
    let mamdani = Mamdani::new(vec![reputation, history], trust_level, rules);
    let controller = FuzzyController::new(mamdani);
    let trust = controller
        .evaluate(&vec![7_500, 4_000])
        .expect("evaluation failed");
    assert!(0 <= trust && trust <= 10_000);
    // Deterministic: the same call gives the same crisp value.
    assert_eq!(controller.evaluate(&vec![7_500, 4_000]), Ok(trust));
}

// The fuzzify stage exposes the degree matrix: one row per input
// variable, one degree per set.
#[test]
fn fuzzify_degree_matrix() {
    let reputation = FuzzyVariable::new("reputation".to_string(), trust_sets(), None);
    let trust_level = FuzzyVariable::new(
        "trust_level".to_string(),
        trust_sets(),
        Some(DefuzzMethod::CentreOfGravity),
    );
    let mamdani = Mamdani::new(vec![reputation], trust_level, vec![Rule::new(vec![1], 1)]);
    let degrees = mamdani.fuzzify(&vec![2_500]);
    assert_eq!(degrees.len(), 1);
    // low falls from 1 at 0 to 0 at 5; medium rises from 0 at 0 to 1
    // at 5; high is 0 below 5. All in fixed point (1000 = 1.0).
    assert_eq!(degrees[0], vec![500, 500, 0]);
}
