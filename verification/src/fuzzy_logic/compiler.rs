//! Semantic compiler: walks the AST once, resolves variable and term
//! names into indices, attaches piecewise-linear membership functions
//! built from the term envelopes, and emits an executable Mamdani
//! model. Compilation aborts on the first semantic error; no partial
//! model is returned.
//!
//! Only conjunctive (`AND`) antecedent combination is compiled; a rule
//! that joins clauses with `OR` is rejected with
//! `SemanticError::DisjunctionUnsupported`, since no combination
//! semantics is defined for it here.
use vstd::prelude::*;

verus! {

use crate::fuzzy_logic::ast::{AstDecl, AstNode, AstRoot, AstTerm, ast_block_wf, ast_root_wf, ast_term_wf};
use crate::fuzzy_logic::control_language::{Connective, SynClause, SynRule, str_eq, syn_rule_wf};
use crate::fuzzy_logic::errors::SemanticError;
use crate::fuzzy_logic::functions::{MembershipFunction, Point, check_envelope, env_wf};
use crate::fuzzy_logic::controller::FuzzyController;
use crate::fuzzy_logic::mamdani::Mamdani;
use crate::fuzzy_logic::{DefuzzMethod, FuzzySet, FuzzyVariable, Rule};

/// The input-variable declarations of the first `n` blocks, in order.
pub open spec fn input_decls_upto(blocks: Seq<AstNode>, n: int) -> Seq<AstDecl>
    decreases n,
{
    if n <= 0 {
        Seq::empty()
    } else {
        input_decls_upto(blocks, n - 1) + block_input_decls(blocks[n - 1])
    }
}

pub open spec fn block_input_decls(b: AstNode) -> Seq<AstDecl> {
    match b {
        AstNode::VarInput(ds) => ds@,
        _ => Seq::empty(),
    }
}

pub open spec fn input_decls(r: AstRoot) -> Seq<AstDecl> {
    input_decls_upto(r.blocks@, r.blocks@.len() as int)
}

/// The output-variable declarations of the first `n` blocks, in order.
pub open spec fn output_decls_upto(blocks: Seq<AstNode>, n: int) -> Seq<AstDecl>
    decreases n,
{
    if n <= 0 {
        Seq::empty()
    } else {
        output_decls_upto(blocks, n - 1) + block_output_decls(blocks[n - 1])
    }
}

pub open spec fn block_output_decls(b: AstNode) -> Seq<AstDecl> {
    match b {
        AstNode::VarOutput(ds) => ds@,
        _ => Seq::empty(),
    }
}

pub open spec fn output_decls(r: AstRoot) -> Seq<AstDecl> {
    output_decls_upto(r.blocks@, r.blocks@.len() as int)
}

/// The name of the single output variable.
pub open spec fn out_name(r: AstRoot) -> Seq<char> {
    output_decls(r)[0].name@
}

/// The terms defined for variable `name` by the first `n` blocks:
/// `FUZZIFY` blocks when `fuzz` is true, `DEFUZZIFY` blocks otherwise.
pub open spec fn terms_upto(blocks: Seq<AstNode>, name: Seq<char>, fuzz: bool, n: int) -> Seq<
    AstTerm,
>
    decreases n,
{
    if n <= 0 {
        Seq::empty()
    } else {
        terms_upto(blocks, name, fuzz, n - 1) + block_terms(blocks[n - 1], name, fuzz)
    }
}

pub open spec fn block_terms(b: AstNode, name: Seq<char>, fuzz: bool) -> Seq<AstTerm> {
    match b {
        AstNode::Fuzzify { var, terms } => {
            if fuzz && var@ == name {
                terms@
            } else {
                Seq::empty()
            }
        },
        AstNode::Defuzzify { var, terms, method } => {
            if !fuzz && var@ == name {
                terms@
            } else {
                Seq::empty()
            }
        },
        _ => Seq::empty(),
    }
}

pub open spec fn fuzz_terms(r: AstRoot, name: Seq<char>) -> Seq<AstTerm> {
    terms_upto(r.blocks@, name, true, r.blocks@.len() as int)
}

pub open spec fn defuzz_terms(r: AstRoot, name: Seq<char>) -> Seq<AstTerm> {
    terms_upto(r.blocks@, name, false, r.blocks@.len() as int)
}

/// The rules of the first `n` blocks, in order.
pub open spec fn rules_upto(blocks: Seq<AstNode>, n: int) -> Seq<SynRule>
    decreases n,
{
    if n <= 0 {
        Seq::empty()
    } else {
        rules_upto(blocks, n - 1) + block_rules(blocks[n - 1])
    }
}

pub open spec fn block_rules(b: AstNode) -> Seq<SynRule> {
    match b {
        AstNode::RuleBlock { name, ops, rules } => rules@,
        _ => Seq::empty(),
    }
}

pub open spec fn ast_rules(r: AstRoot) -> Seq<SynRule> {
    rules_upto(r.blocks@, r.blocks@.len() as int)
}

/// The index of the first term named `name`, or the length if none is.
pub open spec fn find_from(terms: Seq<AstTerm>, name: Seq<char>, i: int) -> int
    decreases terms.len() - i,
{
    if !(0 <= i < terms.len()) {
        terms.len() as int
    } else if terms[i].name@ == name {
        i
    } else {
        find_from(terms, name, i + 1)
    }
}

pub open spec fn find_term(terms: Seq<AstTerm>, name: Seq<char>) -> int {
    find_from(terms, name, 0)
}

/// A compiled set is the named piecewise-linear reading of its term.
pub open spec fn set_from_term(s: FuzzySet, t: AstTerm) -> bool {
    &&& s.name@ == t.name@
    &&& s.membership_fn matches MembershipFunction::PiecewiseLinear { points } && points@
        == t.envelope@
}

/// A compiled variable holds one set per term of `terms`, in order.
pub open spec fn var_from_terms(
    v: FuzzyVariable,
    name: Seq<char>,
    terms: Seq<AstTerm>,
    defuzz: Option<DefuzzMethod>,
) -> bool {
    &&& v.name@ == name
    &&& v.defuzz == defuzz
    &&& v.sets@.len() == terms.len()
    &&& forall|i: int| 0 <= i < terms.len() ==> set_from_term(#[trigger] v.sets@[i], terms[i])
}

pub open spec fn term_names_unique(terms: Seq<AstTerm>) -> bool {
    forall|i: int, j: int|
        0 <= i < j < terms.len() ==> (#[trigger] terms[i]).name@ != (#[trigger] terms[j]).name@
}

pub open spec fn term_envs_ok(terms: Seq<AstTerm>) -> bool {
    forall|i: int| 0 <= i < terms.len() ==> env_wf((#[trigger] terms[i]).envelope@)
}

/// A term list compiles: non-empty, pairwise-distinct names, every
/// envelope well formed.
pub open spec fn terms_ok(terms: Seq<AstTerm>) -> bool {
    &&& terms.len() >= 1
    &&& term_names_unique(terms)
    &&& term_envs_ok(terms)
}

/// The term lists of every declared variable (each input, and the
/// output) satisfy the given aspect.
pub open spec fn all_envs_ok(r: AstRoot) -> bool {
    &&& forall|i: int|
        0 <= i < input_decls(r).len() ==> term_envs_ok(
            fuzz_terms(r, (#[trigger] input_decls(r)[i]).name@),
        )
    &&& term_envs_ok(defuzz_terms(r, out_name(r)))
}

pub open spec fn all_names_unique(r: AstRoot) -> bool {
    &&& forall|i: int|
        0 <= i < input_decls(r).len() ==> term_names_unique(
            fuzz_terms(r, (#[trigger] input_decls(r)[i]).name@),
        )
    &&& term_names_unique(defuzz_terms(r, out_name(r)))
}

pub open spec fn all_nonempty(r: AstRoot) -> bool {
    &&& forall|i: int|
        0 <= i < input_decls(r).len() ==> fuzz_terms(
            r,
            (#[trigger] input_decls(r)[i]).name@,
        ).len() >= 1
    &&& defuzz_terms(r, out_name(r)).len() >= 1
}

pub open spec fn all_terms_ok(r: AstRoot) -> bool {
    &&& forall|i: int|
        0 <= i < input_decls(r).len() ==> terms_ok(
            fuzz_terms(r, (#[trigger] input_decls(r)[i]).name@),
        )
    &&& terms_ok(defuzz_terms(r, out_name(r)))
}

/// Aspects of one rule, used to pin which error its resolution
/// reports.
pub open spec fn rule_conns_and(sr: SynRule) -> bool {
    forall|c: int|
        0 <= c < sr.connectives@.len() ==> (#[trigger] sr.connectives@[c]) == Connective::And
}

pub open spec fn rule_vars_match(r: AstRoot, sr: SynRule) -> bool {
    &&& forall|j: int|
        0 <= j < sr.clauses@.len() ==> (#[trigger] sr.clauses@[j]).var@ == input_decls(
            r,
        )[j].name@
    &&& sr.consequent.var@ == out_name(r)
}

pub open spec fn rule_terms_resolve(r: AstRoot, sr: SynRule) -> bool {
    &&& forall|j: int|
        0 <= j < sr.clauses@.len() ==> find_term(
            fuzz_terms(r, input_decls(r)[j].name@),
            (#[trigger] sr.clauses@[j]).set@,
        ) < fuzz_terms(r, input_decls(r)[j].name@).len()
    &&& find_term(defuzz_terms(r, out_name(r)), sr.consequent.set@) < defuzz_terms(
        r,
        out_name(r),
    ).len()
}

/// Rule aspects, over all rules of the AST.
pub open spec fn all_rules_and(r: AstRoot) -> bool {
    forall|k: int, c: int|
        0 <= k < ast_rules(r).len() && 0 <= c < ast_rules(r)[k].connectives@.len() ==> (
        #[trigger] ast_rules(r)[k].connectives@[c]) == Connective::And
}

pub open spec fn all_rules_arity(r: AstRoot) -> bool {
    forall|k: int|
        0 <= k < ast_rules(r).len() ==> (#[trigger] ast_rules(r)[k]).clauses@.len()
            == input_decls(r).len()
}

pub open spec fn all_rules_vars(r: AstRoot) -> bool {
    forall|k: int|
        0 <= k < ast_rules(r).len() ==> (forall|j: int|
            0 <= j < (#[trigger] ast_rules(r)[k]).clauses@.len() ==> (
            #[trigger] ast_rules(r)[k].clauses@[j]).var@ == input_decls(r)[j].name@)
            && ast_rules(r)[k].consequent.var@ == out_name(r)
}

pub open spec fn all_rules_terms(r: AstRoot) -> bool {
    forall|k: int|
        0 <= k < ast_rules(r).len() ==> (forall|j: int|
            0 <= j < (#[trigger] ast_rules(r)[k]).clauses@.len() ==> find_term(
                fuzz_terms(r, input_decls(r)[j].name@),
                (#[trigger] ast_rules(r)[k].clauses@[j]).set@,
            ) < fuzz_terms(r, input_decls(r)[j].name@).len()) && find_term(
            defuzz_terms(r, out_name(r)),
            ast_rules(r)[k].consequent.set@,
        ) < defuzz_terms(r, out_name(r)).len()
}

/// Build the fuzzy sets of variable `name` from its term definitions
/// in `FUZZIFY` (`fuzz`) or `DEFUZZIFY` (`!fuzz`) blocks.
fn build_sets(root: &AstRoot, name: &String, fuzz: bool) -> (res: Result<
    Vec<FuzzySet>,
    SemanticError,
>)
    requires
        ast_root_wf(*root),
    ensures
        res is Ok ==> ({
            let terms = terms_upto(root.blocks@, name@, fuzz, root.blocks@.len() as int);
            &&& terms_ok(terms)
            &&& res->Ok_0@.len() == terms.len()
            &&& forall|i: int|
                0 <= i < terms.len() ==> set_from_term(#[trigger] res->Ok_0@[i], terms[i])
        }),
        (res is Ok) <==> terms_ok(
            terms_upto(root.blocks@, name@, fuzz, root.blocks@.len() as int),
        ),
        res is Err ==> (res->Err_0 is MalformedEnvelope || res->Err_0 is DuplicateTermName
            || res->Err_0 is MissingTermDefinitions),
        !term_envs_ok(terms_upto(root.blocks@, name@, fuzz, root.blocks@.len() as int))
            ==> res matches Err(SemanticError::MalformedEnvelope(_)),
        terms_upto(root.blocks@, name@, fuzz, root.blocks@.len() as int).len() == 0 ==> (
        res matches Err(SemanticError::MissingTermDefinitions(n)) && n@ == name@),
        ({
            let terms = terms_upto(root.blocks@, name@, fuzz, root.blocks@.len() as int);
            terms.len() >= 1 && term_envs_ok(terms) && !term_names_unique(terms)
        }) ==> res matches Err(SemanticError::DuplicateTermName(_)),
{
    let ghost blocks = root.blocks@;
    let ghost nb_g = root.blocks@.len() as int;
    let mut sets: Vec<FuzzySet> = Vec::new();
    let nb = root.blocks.len();
    let mut b: usize = 0;
    while b < nb
        invariant
            ast_root_wf(*root),
            blocks == root.blocks@,
            nb == blocks.len(),
            0 <= b <= nb,
            sets@.len() == terms_upto(blocks, name@, fuzz, b as int).len(),
            forall|i: int|
                0 <= i < sets@.len() ==> set_from_term(
                    #[trigger] sets@[i],
                    terms_upto(blocks, name@, fuzz, b as int)[i],
                ),
            forall|i: int|
                0 <= i < sets@.len() ==> env_wf(
                    (#[trigger] terms_upto(blocks, name@, fuzz, b as int)[i]).envelope@,
                ),
        decreases nb - b,
    {
        let ghost prev = terms_upto(blocks, name@, fuzz, b as int);
        let block = &root.blocks[b];
        let bterms: Option<&Vec<AstTerm>> = match block {
            AstNode::Fuzzify { var, terms } => {
                if fuzz && str_eq(var.as_str(), name.as_str()) {
                    Some(terms)
                } else {
                    None
                }
            },
            AstNode::Defuzzify { var, terms, method } => {
                if !fuzz && str_eq(var.as_str(), name.as_str()) {
                    Some(terms)
                } else {
                    None
                }
            },
            _ => None,
        };
        proof {
            assert(terms_upto(blocks, name@, fuzz, b as int + 1) == prev + block_terms(
                blocks[b as int],
                name@,
                fuzz,
            ));
        }
        match bterms {
            Some(ts) => {
                proof {
                    assert(block_terms(blocks[b as int], name@, fuzz) == ts@);
                    assert(ast_block_wf(blocks[b as int]));
                }
                let nt = ts.len();
                let mut k: usize = 0;
                while k < nt
                    invariant
                        ast_root_wf(*root),
                        blocks == root.blocks@,
                        nb == blocks.len(),
                        0 <= b < nb,
                        nt == ts@.len(),
                        0 <= k <= nt,
                        forall|i: int| 0 <= i < ts@.len() ==> ast_term_wf(#[trigger] ts@[i]),
                        prev == terms_upto(blocks, name@, fuzz, b as int),
                        terms_upto(blocks, name@, fuzz, b as int + 1) == prev + ts@,
                        sets@.len() == prev.len() + k,
                        forall|i: int|
                            0 <= i < sets@.len() ==> set_from_term(
                                #[trigger] sets@[i],
                                (prev + ts@)[i],
                            ),
                        forall|i: int|
                            0 <= i < sets@.len() ==> env_wf(((prev + ts@)[i]).envelope@),
                    decreases nt - k,
                {
                    let t = &ts[k];
                    let mut points: Vec<Point> = Vec::new();
                    let np = t.envelope.len();
                    let mut q: usize = 0;
                    while q < np
                        invariant
                            np == t.envelope@.len(),
                            0 <= q <= np,
                            points@ =~= t.envelope@.take(q as int),
                        decreases np - q,
                    {
                        let p = t.envelope[q];
                        points.push(p);
                        q = q + 1;
                    }
                    proof {
                        assert(points@ =~= t.envelope@);
                    }
                    if !check_envelope(&points) {
                        proof {
                            assert(!env_wf(ts@[k as int].envelope@));
                            assert((prev + ts@)[prev.len() + k] == ts@[k as int]);
                            assert(!terms_ok(terms_upto(blocks, name@, fuzz, nb as int))) by {
                                lemma_terms_upto_prefix(
                                    blocks,
                                    name@,
                                    fuzz,
                                    b as int + 1,
                                    nb as int,
                                );
                                let tfull = terms_upto(blocks, name@, fuzz, nb as int);
                                let m = prev.len() as int + k as int;
                                assert(terms_upto(blocks, name@, fuzz, b as int + 1)[m] == ts@[k as int]);
                                assert(tfull[m] == ts@[k as int]);
                                assert(0 <= m < tfull.len());
                                assert(!env_wf(tfull[m].envelope@));
                            }
                            lemma_terms_upto_prefix(blocks, name@, fuzz, b as int + 1, nb as int);
                            let tfull = terms_upto(blocks, name@, fuzz, nb as int);
                            let m = prev.len() as int + k as int;
                            assert(tfull[m] == ts@[k as int]);
                            assert(0 <= m < tfull.len());
                            assert(!env_wf(tfull[m].envelope@));
                            assert(!term_envs_ok(tfull));
                        }
                        return Result::Err(SemanticError::MalformedEnvelope(t.name.clone()));
                    }
                    let set = FuzzySet {
                        name: t.name.clone(),
                        membership_fn: MembershipFunction::PiecewiseLinear { points },
                    };
                    sets.push(set);
                    proof {
                        assert((prev + ts@)[prev.len() + k] == ts@[k as int]);
                    }
                    k = k + 1;
                }
            },
            None => {
                proof {
                    assert(block_terms(blocks[b as int], name@, fuzz) =~= Seq::<AstTerm>::empty());
                    assert(prev + block_terms(blocks[b as int], name@, fuzz) =~= prev);
                }
            },
        }
        b = b + 1;
    }
    let ghost terms = terms_upto(blocks, name@, fuzz, nb_g);
    if sets.len() == 0 {
        proof {
            assert(!terms_ok(terms));
        }
        return Result::Err(SemanticError::MissingTermDefinitions(name.clone()));
    }
    // Term names must be pairwise distinct within the variable.
    let ns = sets.len();
    let mut i: usize = 0;
    while i < ns
        invariant
            terms == terms_upto(root.blocks@, name@, fuzz, root.blocks@.len() as int),
            ns == sets@.len(),
            ns == terms.len(),
            term_envs_ok(terms),
            0 <= i <= ns,
            forall|a: int| 0 <= a < ns ==> set_from_term(#[trigger] sets@[a], terms[a]),
            forall|a: int, c: int| 0 <= a < c < ns && a < i ==> (#[trigger] terms[a]).name@ != (
            #[trigger] terms[c]).name@,
        decreases ns - i,
    {
        let mut j: usize = i + 1;
        while j < ns
            invariant
                terms == terms_upto(root.blocks@, name@, fuzz, root.blocks@.len() as int),
                ns == sets@.len(),
                ns == terms.len(),
                term_envs_ok(terms),
                0 <= i < ns,
                i < j <= ns,
                forall|a: int| 0 <= a < ns ==> set_from_term(#[trigger] sets@[a], terms[a]),
                forall|c: int| i < c < j ==> (#[trigger] terms[c]).name@ != terms[i as int].name@,
            decreases ns - j,
        {
            if str_eq(sets[i].name.as_str(), sets[j].name.as_str()) {
                proof {
                    assert(terms[i as int].name@ == terms[j as int].name@);
                    assert(!terms_ok(terms));
                }
                return Result::Err(SemanticError::DuplicateTermName(sets[i].name.clone()));
            }
            j = j + 1;
        }
        i = i + 1;
    }
    proof {
        assert forall|a: int, c: int| 0 <= a < c < terms.len() implies (#[trigger] terms[a]).name@
            != (#[trigger] terms[c]).name@ by {}
        assert(terms_ok(terms));
    }
    Result::Ok(sets)
}

/// Declared variable names are pairwise distinct (inputs among
/// themselves and against the output).
pub open spec fn names_distinct(r: AstRoot) -> bool {
    &&& forall|i: int, j: int|
        0 <= i < j < input_decls(r).len() ==> (#[trigger] input_decls(r)[i]).name@ != (
        #[trigger] input_decls(r)[j]).name@
    &&& forall|i: int|
        0 <= i < input_decls(r).len() ==> (#[trigger] input_decls(r)[i]).name@ != out_name(r)
}

/// A block's variable reference resolves: a `FUZZIFY` block names a
/// declared input, a `DEFUZZIFY` block names the output.
pub open spec fn block_var_resolves(blk: AstNode, r: AstRoot) -> bool {
    match blk {
        AstNode::Fuzzify { var, terms } => exists|i: int|
            0 <= i < input_decls(r).len() && (#[trigger] input_decls(r)[i]).name@ == var@,
        AstNode::Defuzzify { var, terms, method } => var@ == out_name(r),
        _ => true,
    }
}

/// A `DEFUZZIFY` block carries no method other than `COG`.
pub open spec fn block_method_ok(blk: AstNode) -> bool {
    match blk {
        AstNode::Defuzzify { var, terms, method } => match method {
            Option::Some(m) => m@ == "COG"@,
            Option::None => true,
        },
        _ => true,
    }
}

/// A rule block declares only the operators this engine implements:
/// `AND: MIN;` and `ACCU: MAX;`.
pub open spec fn block_ops_ok(blk: AstNode) -> bool {
    match blk {
        AstNode::RuleBlock { name, ops, rules } => forall|i: int|
            0 <= i < ops@.len() ==> ((#[trigger] ops@[i]).op@ == "AND"@ && ops@[i].value@
                == "MIN"@) || (ops@[i].op@ == "ACCU"@ && ops@[i].value@ == "MAX"@),
        _ => true,
    }
}

pub open spec fn block_resolves(blk: AstNode, r: AstRoot) -> bool {
    &&& block_var_resolves(blk, r)
    &&& block_method_ok(blk)
    &&& block_ops_ok(blk)
}

pub open spec fn blocks_resolve(r: AstRoot) -> bool {
    forall|b: int| 0 <= b < r.blocks@.len() ==> block_resolves(#[trigger] r.blocks@[b], r)
}

/// A rule compiles: conjunctive connectives only, one clause per input
/// variable in declaration order, and every referenced term defined.
pub open spec fn rule_ok(r: AstRoot, sr: SynRule) -> bool {
    &&& forall|j: int|
        0 <= j < sr.connectives@.len() ==> (#[trigger] sr.connectives@[j]) == Connective::And
    &&& sr.clauses@.len() == input_decls(r).len()
    &&& forall|j: int|
        0 <= j < sr.clauses@.len() ==> (#[trigger] sr.clauses@[j]).var@ == input_decls(
            r,
        )[j].name@
    &&& forall|j: int|
        0 <= j < sr.clauses@.len() ==> find_term(
            fuzz_terms(r, input_decls(r)[j].name@),
            (#[trigger] sr.clauses@[j]).set@,
        ) < fuzz_terms(r, input_decls(r)[j].name@).len()
    &&& sr.consequent.var@ == out_name(r)
    &&& find_term(defuzz_terms(r, out_name(r)), sr.consequent.set@) < defuzz_terms(
        r,
        out_name(r),
    ).len()
}

pub open spec fn rules_ok(r: AstRoot) -> bool {
    forall|k: int| 0 <= k < ast_rules(r).len() ==> rule_ok(r, #[trigger] ast_rules(r)[k])
}

/// Everything the compiler checks; compilation succeeds exactly when
/// this holds.
pub open spec fn compile_ok(r: AstRoot) -> bool {
    &&& output_decls(r).len() == 1
    &&& names_distinct(r)
    &&& blocks_resolve(r)
    &&& forall|i: int|
        0 <= i < input_decls(r).len() ==> terms_ok(
            fuzz_terms(r, (#[trigger] input_decls(r)[i]).name@),
        )
    &&& terms_ok(defuzz_terms(r, out_name(r)))
    &&& rules_ok(r)
}

/// A compiled rule holds the resolved indices of its clause terms.
pub open spec fn rule_resolved(rule: Rule, sr: SynRule, r: AstRoot) -> bool {
    &&& rule.antecedents@.len() == sr.clauses@.len()
    &&& forall|j: int|
        0 <= j < rule.antecedents@.len() ==> (#[trigger] rule.antecedents@[j]) as int
            == find_term(fuzz_terms(r, input_decls(r)[j].name@), sr.clauses@[j].set@)
    &&& rule.consequent as int == find_term(defuzz_terms(r, out_name(r)), sr.consequent.set@)
}

/// The compiled model is the resolved reading of the AST: one input
/// variable per declaration in order, each holding the sets of its
/// term definitions; the output variable with the centre-of-gravity
/// method; one resolved rule per source rule in order.
pub open spec fn model_from_ast(m: Mamdani, r: AstRoot) -> bool {
    &&& m.inputs@.len() == input_decls(r).len()
    &&& forall|i: int|
        0 <= i < m.inputs@.len() ==> var_from_terms(
            #[trigger] m.inputs@[i],
            input_decls(r)[i].name@,
            fuzz_terms(r, input_decls(r)[i].name@),
            Option::None,
        )
    &&& var_from_terms(
        m.output,
        out_name(r),
        defuzz_terms(r, out_name(r)),
        Option::Some(DefuzzMethod::CentreOfGravity),
    )
    &&& m.rules@.len() == ast_rules(r).len()
    &&& forall|k: int|
        0 <= k < m.rules@.len() ==> rule_resolved(#[trigger] m.rules@[k], ast_rules(r)[k], r)
}

/// Terms found below a prefix bound are found below any larger bound.
proof fn lemma_terms_upto_prefix(
    blocks: Seq<AstNode>,
    name: Seq<char>,
    fuzz: bool,
    n: int,
    m: int,
)
    requires
        0 <= n <= m <= blocks.len(),
    ensures
        terms_upto(blocks, name, fuzz, m).len() >= terms_upto(blocks, name, fuzz, n).len(),
        forall|i: int|
            0 <= i < terms_upto(blocks, name, fuzz, n).len() ==> #[trigger] terms_upto(
                blocks,
                name,
                fuzz,
                m,
            )[i] == terms_upto(blocks, name, fuzz, n)[i],
    decreases m - n,
{
    if n < m {
        lemma_terms_upto_prefix(blocks, name, fuzz, n + 1, m);
    }
}

/// Collect the declared input (or output) variable names, in order.
fn collect_names(root: &AstRoot, inputs: bool) -> (r: Vec<String>)
    ensures
        inputs ==> r@.len() == input_decls(*root).len() && forall|i: int|
            0 <= i < r@.len() ==> (#[trigger] r@[i])@ == input_decls(*root)[i].name@,
        !inputs ==> r@.len() == output_decls(*root).len() && forall|i: int|
            0 <= i < r@.len() ==> (#[trigger] r@[i])@ == output_decls(*root)[i].name@,
{
    let ghost blocks = root.blocks@;
    let mut names: Vec<String> = Vec::new();
    let nb = root.blocks.len();
    let mut b: usize = 0;
    while b < nb
        invariant
            blocks == root.blocks@,
            nb == blocks.len(),
            0 <= b <= nb,
            inputs ==> names@.len() == input_decls_upto(blocks, b as int).len() && forall|i: int|
                0 <= i < names@.len() ==> (#[trigger] names@[i])@ == input_decls_upto(
                    blocks,
                    b as int,
                )[i].name@,
            !inputs ==> names@.len() == output_decls_upto(blocks, b as int).len() && forall|
                i: int,
            |
                0 <= i < names@.len() ==> (#[trigger] names@[i])@ == output_decls_upto(
                    blocks,
                    b as int,
                )[i].name@,
        decreases nb - b,
    {
        let ghost prev_in = input_decls_upto(blocks, b as int);
        let ghost prev_out = output_decls_upto(blocks, b as int);
        let ds: Option<&Vec<AstDecl>> = match &root.blocks[b] {
            AstNode::VarInput(ds) => {
                if inputs {
                    Some(ds)
                } else {
                    None
                }
            },
            AstNode::VarOutput(ds) => {
                if !inputs {
                    Some(ds)
                } else {
                    None
                }
            },
            _ => None,
        };
        match ds {
            Some(ds) => {
                let nd = ds.len();
                let mut k: usize = 0;
                while k < nd
                    invariant
                        blocks == root.blocks@,
                        nb == blocks.len(),
                        0 <= b < nb,
                        nd == ds@.len(),
                        0 <= k <= nd,
                        inputs ==> prev_in == input_decls_upto(blocks, b as int)
                            && input_decls_upto(blocks, b as int + 1) == prev_in + ds@
                            && names@.len() == prev_in.len() + k && forall|i: int|
                            0 <= i < names@.len() ==> (#[trigger] names@[i])@ == (prev_in
                                + ds@)[i].name@,
                        !inputs ==> prev_out == output_decls_upto(blocks, b as int)
                            && output_decls_upto(blocks, b as int + 1) == prev_out + ds@
                            && names@.len() == prev_out.len() + k && forall|i: int|
                            0 <= i < names@.len() ==> (#[trigger] names@[i])@ == (prev_out
                                + ds@)[i].name@,
                    decreases nd - k,
                {
                    names.push(ds[k].name.clone());
                    k = k + 1;
                }
            },
            None => {
                proof {
                    if inputs {
                        assert(block_input_decls(blocks[b as int]) =~= Seq::<AstDecl>::empty());
                        assert(prev_in + block_input_decls(blocks[b as int]) =~= prev_in);
                    } else {
                        assert(block_output_decls(blocks[b as int]) =~= Seq::<AstDecl>::empty());
                        assert(prev_out + block_output_decls(blocks[b as int]) =~= prev_out);
                    }
                }
            },
        }
        b = b + 1;
    }
    names
}

/// Index of the first name equal to `target`, or the length.
fn find_in_names(names: &Vec<String>, target: &str) -> (r: usize)
    ensures
        r <= names@.len(),
        r < names@.len() ==> (names@[r as int])@ == target@,
        forall|k: int| 0 <= k < r ==> (#[trigger] names@[k])@ != target@,
        r == names@.len() ==> forall|k: int|
            0 <= k < names@.len() ==> (#[trigger] names@[k])@ != target@,
{
    let n = names.len();
    let mut i: usize = 0;
    while i < n
        invariant
            n == names@.len(),
            0 <= i <= n,
            forall|k: int| 0 <= k < i ==> (#[trigger] names@[k])@ != target@,
        decreases n - i,
    {
        if str_eq(names[i].as_str(), target) {
            return i;
        }
        i = i + 1;
    }
    n
}

/// Index of the first set whose name is `target`, related to the term
/// list the sets were built from.
fn find_set(sets: &Vec<FuzzySet>, Ghost(terms): Ghost<Seq<AstTerm>>, target: &String) -> (r: usize)
    requires
        sets@.len() == terms.len(),
        forall|i: int| 0 <= i < terms.len() ==> set_from_term(#[trigger] sets@[i], terms[i]),
    ensures
        r as int == find_term(terms, target@),
        r <= sets@.len(),
{
    let n = sets.len();
    let mut i: usize = 0;
    while i < n
        invariant
            n == sets@.len(),
            n == terms.len(),
            forall|k: int| 0 <= k < terms.len() ==> set_from_term(#[trigger] sets@[k], terms[k]),
            0 <= i <= n,
            find_from(terms, target@, 0) == find_from(terms, target@, i as int),
        decreases n - i,
    {
        if str_eq(sets[i].name.as_str(), target.as_str()) {
            proof {
                assert(terms[i as int].name@ == target@);
            }
            return i;
        }
        proof {
            assert(terms[i as int].name@ != target@);
        }
        i = i + 1;
    }
    n
}

/// Resolve one source rule against the compiled variables.
fn resolve_rule(
    root: &AstRoot,
    sr: &SynRule,
    in_names: &Vec<String>,
    inputs: &Vec<FuzzyVariable>,
    out_var: &FuzzyVariable,
) -> (res: Result<Rule, SemanticError>)
    requires
        in_names@.len() == input_decls(*root).len(),
        forall|i: int|
            0 <= i < in_names@.len() ==> (#[trigger] in_names@[i])@ == input_decls(
                *root,
            )[i].name@,
        inputs@.len() == input_decls(*root).len(),
        forall|i: int|
            0 <= i < inputs@.len() ==> var_from_terms(
                #[trigger] inputs@[i],
                input_decls(*root)[i].name@,
                fuzz_terms(*root, input_decls(*root)[i].name@),
                Option::None,
            ),
        output_decls(*root).len() == 1,
        var_from_terms(
            *out_var,
            out_name(*root),
            defuzz_terms(*root, out_name(*root)),
            Option::Some(DefuzzMethod::CentreOfGravity),
        ),
    ensures
        res is Ok ==> rule_resolved(res->Ok_0, *sr, *root) && res->Ok_0.antecedents@.len()
            == inputs@.len() && (forall|j: int|
            0 <= j < inputs@.len() ==> (#[trigger] res->Ok_0.antecedents@[j])
                < inputs@[j].sets@.len()) && res->Ok_0.consequent < out_var.sets@.len(),
        (res is Ok) <==> rule_ok(*root, *sr),
        res is Err ==> (res->Err_0 is UnknownVariable || res->Err_0 is UnknownTerm
            || res->Err_0 is RuleArityMismatch || res->Err_0 is DisjunctionUnsupported),
        !rule_conns_and(*sr) ==> res == Result::<Rule, SemanticError>::Err(
            SemanticError::DisjunctionUnsupported,
        ),
        rule_conns_and(*sr) && sr.clauses@.len() != input_decls(*root).len() ==> res
            == Result::<Rule, SemanticError>::Err(SemanticError::RuleArityMismatch),
        rule_conns_and(*sr) && sr.clauses@.len() == input_decls(*root).len() && !rule_vars_match(
            *root,
            *sr,
        ) && rule_terms_resolve(*root, *sr) ==> res matches Err(SemanticError::UnknownVariable(_)),
        rule_conns_and(*sr) && sr.clauses@.len() == input_decls(*root).len() && rule_vars_match(
            *root,
            *sr,
        ) && !rule_terms_resolve(*root, *sr) ==> res matches Err(SemanticError::UnknownTerm(_)),
{
    // Only conjunctive combination is defined.
    let nc = sr.connectives.len();
    let mut c: usize = 0;
    while c < nc
        invariant
            nc == sr.connectives@.len(),
            0 <= c <= nc,
            forall|j: int| 0 <= j < c ==> (#[trigger] sr.connectives@[j]) == Connective::And,
        decreases nc - c,
    {
        if sr.connectives[c] == Connective::Or {
            return Result::Err(SemanticError::DisjunctionUnsupported);
        }
        c = c + 1;
    }
    // One clause per input variable, in declaration order.
    if sr.clauses.len() != in_names.len() {
        return Result::Err(SemanticError::RuleArityMismatch);
    }
    let nj = sr.clauses.len();
    let mut antecedents: Vec<usize> = Vec::new();
    let mut j: usize = 0;
    while j < nj
        invariant
            in_names@.len() == input_decls(*root).len(),
            forall|i: int|
                0 <= i < in_names@.len() ==> (#[trigger] in_names@[i])@ == input_decls(
                    *root,
                )[i].name@,
            inputs@.len() == input_decls(*root).len(),
            forall|i: int|
                0 <= i < inputs@.len() ==> var_from_terms(
                    #[trigger] inputs@[i],
                    input_decls(*root)[i].name@,
                    fuzz_terms(*root, input_decls(*root)[i].name@),
                    Option::None,
                ),
            rule_conns_and(*sr),
            nj == sr.clauses@.len(),
            nj == in_names@.len(),
            0 <= j <= nj,
            antecedents@.len() == j,
            forall|k: int|
                0 <= k < j ==> (#[trigger] sr.clauses@[k]).var@ == input_decls(*root)[k].name@,
            forall|k: int|
                0 <= k < j ==> (#[trigger] antecedents@[k]) as int == find_term(
                    fuzz_terms(*root, input_decls(*root)[k].name@),
                    sr.clauses@[k].set@,
                ) && antecedents@[k] < inputs@[k].sets@.len(),
        decreases nj - j,
    {
        let clause = &sr.clauses[j];
        if !str_eq(clause.var.as_str(), in_names[j].as_str()) {
            proof {
                assert(sr.clauses@[j as int].var@ != input_decls(*root)[j as int].name@);
            }
            return Result::Err(SemanticError::UnknownVariable(clause.var.clone()));
        }
        let var = &inputs[j];
        let idx = find_set(
            &var.sets,
            Ghost(fuzz_terms(*root, input_decls(*root)[j as int].name@)),
            &clause.set,
        );
        if idx >= var.sets.len() {
            proof {
                assert(!rule_ok(*root, *sr));
            }
            return Result::Err(SemanticError::UnknownTerm(clause.set.clone()));
        }
        antecedents.push(idx);
        j = j + 1;
    }
    // Resolve the consequent against the output variable.
    if !str_eq(sr.consequent.var.as_str(), out_var.name.as_str()) {
        return Result::Err(SemanticError::UnknownVariable(sr.consequent.var.clone()));
    }
    let cidx = find_set(
        &out_var.sets,
        Ghost(defuzz_terms(*root, out_name(*root))),
        &sr.consequent.set,
    );
    if cidx >= out_var.sets.len() {
        return Result::Err(SemanticError::UnknownTerm(sr.consequent.set.clone()));
    }
    proof {
        assert forall|k: int| 0 <= k < sr.clauses@.len() implies find_term(
            fuzz_terms(*root, input_decls(*root)[k].name@),
            (#[trigger] sr.clauses@[k]).set@,
        ) < fuzz_terms(*root, input_decls(*root)[k].name@).len() by {
            assert(var_from_terms(
                inputs@[k],
                input_decls(*root)[k].name@,
                fuzz_terms(*root, input_decls(*root)[k].name@),
                Option::None,
            ));
            assert(antecedents@[k] as int == find_term(
                fuzz_terms(*root, input_decls(*root)[k].name@),
                sr.clauses@[k].set@,
            ));
            assert(antecedents@[k] < inputs@[k].sets@.len());
        }
        assert(rule_ok(*root, *sr));
    }
    Result::Ok(Rule { antecedents, consequent: cidx })
}

/// Rules found below a prefix bound are found below any larger bound.
proof fn lemma_rules_upto_prefix(blocks: Seq<AstNode>, n: int, m: int)
    requires
        0 <= n <= m <= blocks.len(),
    ensures
        rules_upto(blocks, m).len() >= rules_upto(blocks, n).len(),
        forall|i: int|
            0 <= i < rules_upto(blocks, n).len() ==> #[trigger] rules_upto(blocks, m)[i]
                == rules_upto(blocks, n)[i],
    decreases m - n,
{
    if n < m {
        lemma_rules_upto_prefix(blocks, n + 1, m);
    }
}

/// A variable built from a valid term list satisfies the variable
/// invariant.
proof fn lemma_var_wf(v: FuzzyVariable, name: Seq<char>, terms: Seq<AstTerm>, d: Option<
    DefuzzMethod,
>)
    requires
        var_from_terms(v, name, terms, d),
        terms_ok(terms),
    ensures
        v.wf(),
{
    assert forall|i: int| 0 <= i < v.sets@.len() implies (#[trigger] v.sets@[i]).wf() by {
        assert(set_from_term(v.sets@[i], terms[i]));
        assert(env_wf(terms[i].envelope@));
    }
    assert forall|i: int, j: int| 0 <= i < j < v.sets@.len() implies (#[trigger] v.sets@[i]).name@
        != (#[trigger] v.sets@[j]).name@ by {
        assert(set_from_term(v.sets@[i], terms[i]));
        assert(set_from_term(v.sets@[j], terms[j]));
    }
}

proof fn lemma_blocks_resolve_parts(r: AstRoot)
    requires
        blocks_resolve(r),
    ensures
        forall|b: int|
            0 <= b < r.blocks@.len() ==> block_var_resolves(#[trigger] r.blocks@[b], r),
        forall|b: int| 0 <= b < r.blocks@.len() ==> block_method_ok(#[trigger] r.blocks@[b]),
        forall|b: int| 0 <= b < r.blocks@.len() ==> block_ops_ok(#[trigger] r.blocks@[b]),
{
    assert forall|b: int|
        0 <= b < r.blocks@.len() implies block_var_resolves(#[trigger] r.blocks@[b], r)
        && block_method_ok(r.blocks@[b]) && block_ops_ok(r.blocks@[b]) by {
        assert(block_resolves(r.blocks@[b], r));
    }
}

proof fn lemma_all_terms_ok_parts(r: AstRoot)
    requires
        all_terms_ok(r),
    ensures
        all_envs_ok(r),
        all_names_unique(r),
        all_nonempty(r),
{
    assert forall|i: int|
        0 <= i < input_decls(r).len() implies term_envs_ok(
        fuzz_terms(r, (#[trigger] input_decls(r)[i]).name@),
    ) && term_names_unique(fuzz_terms(r, input_decls(r)[i].name@)) && fuzz_terms(
        r,
        input_decls(r)[i].name@,
    ).len() >= 1 by {
        assert(terms_ok(fuzz_terms(r, input_decls(r)[i].name@)));
    }
}

proof fn lemma_rules_ok_parts(r: AstRoot)
    requires
        rules_ok(r),
    ensures
        all_rules_and(r),
        all_rules_arity(r),
        all_rules_vars(r),
        all_rules_terms(r),
{
    assert forall|k: int, c: int|
        0 <= k < ast_rules(r).len() && 0 <= c < ast_rules(r)[k].connectives@.len() implies (
    #[trigger] ast_rules(r)[k].connectives@[c]) == Connective::And by {
        assert(rule_ok(r, ast_rules(r)[k]));
    }
    assert forall|k: int|
        0 <= k < ast_rules(r).len() implies (#[trigger] ast_rules(r)[k]).clauses@.len()
        == input_decls(r).len() by {
        assert(rule_ok(r, ast_rules(r)[k]));
    }
    assert forall|k: int|
        0 <= k < ast_rules(r).len() implies (forall|j: int|
        0 <= j < (#[trigger] ast_rules(r)[k]).clauses@.len() ==> (
        #[trigger] ast_rules(r)[k].clauses@[j]).var@ == input_decls(r)[j].name@) && ast_rules(
        r,
    )[k].consequent.var@ == out_name(r) by {
        assert(rule_ok(r, ast_rules(r)[k]));
    }
    assert forall|k: int|
        0 <= k < ast_rules(r).len() implies (forall|j: int|
        0 <= j < (#[trigger] ast_rules(r)[k]).clauses@.len() ==> find_term(
            fuzz_terms(r, input_decls(r)[j].name@),
            (#[trigger] ast_rules(r)[k].clauses@[j]).set@,
        ) < fuzz_terms(r, input_decls(r)[j].name@).len()) && find_term(
        defuzz_terms(r, out_name(r)),
        ast_rules(r)[k].consequent.set@,
    ) < defuzz_terms(r, out_name(r)).len() by {
        assert(rule_ok(r, ast_rules(r)[k]));
    }
}

/// Compile an AST into an executable Mamdani model: resolve names,
/// validate term envelopes, and emit the model. Succeeds exactly when
/// `compile_ok` holds of the AST; otherwise the first semantic error
/// found is returned and no partial model escapes.
#[verifier::rlimit(100)]
pub fn compile_ast(root: &AstRoot) -> (res: Result<Mamdani, SemanticError>)
    requires
        ast_root_wf(*root),
    ensures
        res is Ok ==> res->Ok_0.wf() && model_from_ast(res->Ok_0, *root),
        (res is Ok) <==> compile_ok(*root),
        res is Err ==> !(res->Err_0 is BadNumberLiteral) && !(res->Err_0 is UnknownTypeKeyword),
        (output_decls(*root).len() == 0) <==> res == Result::<Mamdani, SemanticError>::Err(
            SemanticError::MissingOutputVariable,
        ),
        (output_decls(*root).len() > 1) <==> res == Result::<Mamdani, SemanticError>::Err(
            SemanticError::MultipleOutputVariables,
        ),
        (output_decls(*root).len() == 1 && !names_distinct(*root)) <==> res matches Err(
            SemanticError::DuplicateVariableName(_),
        ),
        output_decls(*root).len() == 1 && names_distinct(*root) && (exists|b: int|
            0 <= b < root.blocks@.len() && !block_var_resolves(#[trigger] root.blocks@[b], *root))
            && (forall|b: int|
            0 <= b < root.blocks@.len() ==> block_method_ok(#[trigger] root.blocks@[b]))
            && (forall|b: int|
            0 <= b < root.blocks@.len() ==> block_ops_ok(#[trigger] root.blocks@[b])) ==> res
            matches Err(SemanticError::UnknownVariable(_)),
        output_decls(*root).len() == 1 && names_distinct(*root) && (forall|b: int|
            0 <= b < root.blocks@.len() ==> block_var_resolves(#[trigger] root.blocks@[b], *root))
            && (exists|b: int|
            0 <= b < root.blocks@.len() && !block_method_ok(#[trigger] root.blocks@[b]))
            && (forall|b: int|
            0 <= b < root.blocks@.len() ==> block_ops_ok(#[trigger] root.blocks@[b])) ==> res
            matches Err(SemanticError::UnknownDefuzzMethod(_)),
        output_decls(*root).len() == 1 && names_distinct(*root) && (forall|b: int|
            0 <= b < root.blocks@.len() ==> block_var_resolves(#[trigger] root.blocks@[b], *root))
            && (forall|b: int|
            0 <= b < root.blocks@.len() ==> block_method_ok(#[trigger] root.blocks@[b]))
            && (exists|b: int|
            0 <= b < root.blocks@.len() && !block_ops_ok(#[trigger] root.blocks@[b])) ==> res
            matches Err(SemanticError::UnsupportedOperator(_)),
        output_decls(*root).len() == 1 && names_distinct(*root) && blocks_resolve(*root)
            && !all_envs_ok(*root) && all_names_unique(*root) && all_nonempty(*root) ==> res
            matches Err(SemanticError::MalformedEnvelope(_)),
        output_decls(*root).len() == 1 && names_distinct(*root) && blocks_resolve(*root)
            && all_envs_ok(*root) && all_names_unique(*root) && !all_nonempty(*root) ==> res
            matches Err(SemanticError::MissingTermDefinitions(_)),
        output_decls(*root).len() == 1 && names_distinct(*root) && blocks_resolve(*root)
            && all_envs_ok(*root) && !all_names_unique(*root) && all_nonempty(*root) ==> res
            matches Err(SemanticError::DuplicateTermName(_)),
        output_decls(*root).len() == 1 && names_distinct(*root) && blocks_resolve(*root)
            && all_terms_ok(*root) && !all_rules_and(*root) && all_rules_arity(*root)
            && all_rules_vars(*root) && all_rules_terms(*root) ==> res == Result::<
            Mamdani,
            SemanticError,
        >::Err(SemanticError::DisjunctionUnsupported),
        output_decls(*root).len() == 1 && names_distinct(*root) && blocks_resolve(*root)
            && all_terms_ok(*root) && all_rules_and(*root) && !all_rules_arity(*root)
            && all_rules_vars(*root) && all_rules_terms(*root) ==> res == Result::<
            Mamdani,
            SemanticError,
        >::Err(SemanticError::RuleArityMismatch),
        output_decls(*root).len() == 1 && names_distinct(*root) && blocks_resolve(*root)
            && all_terms_ok(*root) && all_rules_and(*root) && all_rules_arity(*root)
            && !all_rules_vars(*root) && all_rules_terms(*root) ==> res matches Err(
            SemanticError::UnknownVariable(_),
        ),
        output_decls(*root).len() == 1 && names_distinct(*root) && blocks_resolve(*root)
            && all_terms_ok(*root) && all_rules_and(*root) && all_rules_arity(*root)
            && all_rules_vars(*root) && !all_rules_terms(*root) ==> res matches Err(
            SemanticError::UnknownTerm(_),
        ),
{
    let ghost blocks = root.blocks@;
    let in_names = collect_names(root, true);
    let out_names = collect_names(root, false);
    if out_names.len() == 0 {
        return Result::Err(SemanticError::MissingOutputVariable);
    }
    if out_names.len() > 1 {
        return Result::Err(SemanticError::MultipleOutputVariables);
    }
    let oname = &out_names[0];
    proof {
        assert(oname@ == out_name(*root));
    }
    // Declared variable names must be pairwise distinct.
    let ni = in_names.len();
    let mut i: usize = 0;
    while i < ni
        invariant
            ni == in_names@.len(),
            ni == input_decls(*root).len(),
            forall|a: int|
                0 <= a < ni ==> (#[trigger] in_names@[a])@ == input_decls(*root)[a].name@,
            oname@ == out_name(*root),
            output_decls(*root).len() == 1,
            0 <= i <= ni,
            forall|a: int| 0 <= a < i ==> (#[trigger] in_names@[a])@ != oname@,
            forall|a: int, b: int|
                0 <= a < b < ni && a < i ==> (#[trigger] in_names@[a])@ != (
                #[trigger] in_names@[b])@,
        decreases ni - i,
    {
        if str_eq(in_names[i].as_str(), oname.as_str()) {
            proof {
                assert(input_decls(*root)[i as int].name@ == out_name(*root));
                assert(!names_distinct(*root));
            }
            return Result::Err(SemanticError::DuplicateVariableName(in_names[i].clone()));
        }
        let mut j: usize = i + 1;
        while j < ni
            invariant
                ni == in_names@.len(),
                ni == input_decls(*root).len(),
                forall|a: int|
                    0 <= a < ni ==> (#[trigger] in_names@[a])@ == input_decls(*root)[a].name@,
                output_decls(*root).len() == 1,
                0 <= i < ni,
                i < j <= ni,
                forall|b: int| i < b < j ==> (#[trigger] in_names@[b])@ != in_names@[i as int]@,
            decreases ni - j,
        {
            if str_eq(in_names[i].as_str(), in_names[j].as_str()) {
                proof {
                    assert(input_decls(*root)[i as int].name@ == input_decls(
                        *root,
                    )[j as int].name@);
                    assert(!names_distinct(*root));
                }
                return Result::Err(SemanticError::DuplicateVariableName(in_names[i].clone()));
            }
            j = j + 1;
        }
        i = i + 1;
    }
    proof {
        assert forall|a: int, c: int| 0 <= a < c < input_decls(*root).len() implies (
        #[trigger] input_decls(*root)[a]).name@ != (#[trigger] input_decls(*root)[c]).name@ by {
            assert(in_names@[a]@ == input_decls(*root)[a].name@);
            assert(in_names@[c]@ == input_decls(*root)[c].name@);
            assert(in_names@[a]@ != in_names@[c]@);
        }
        assert forall|a: int| 0 <= a < input_decls(*root).len() implies (
        #[trigger] input_decls(*root)[a]).name@ != out_name(*root) by {
            assert(in_names@[a]@ == input_decls(*root)[a].name@);
            assert(in_names@[a]@ != oname@);
        }
        assert(names_distinct(*root));
    }
    // Every block's variable reference must resolve.
    let nb = root.blocks.len();
    let mut b: usize = 0;
    while b < nb
        invariant
            blocks == root.blocks@,
            nb == blocks.len(),
            ni == in_names@.len(),
            ni == input_decls(*root).len(),
            forall|a: int|
                0 <= a < ni ==> (#[trigger] in_names@[a])@ == input_decls(*root)[a].name@,
            oname@ == out_name(*root),
            output_decls(*root).len() == 1,
            names_distinct(*root),
            0 <= b <= nb,
            forall|q: int| 0 <= q < b ==> block_resolves(#[trigger] blocks[q], *root),
        decreases nb - b,
    {
        match &root.blocks[b] {
            AstNode::Fuzzify { var, terms } => {
                let idx = find_in_names(&in_names, var.as_str());
                if idx == in_names.len() {
                    proof {
                        assert forall|q: int| 0 <= q < input_decls(*root).len() implies (
                        #[trigger] input_decls(*root)[q]).name@ != var@ by {
                            assert(in_names@[q]@ != var@);
                        }
                        assert(!block_var_resolves(blocks[b as int], *root));
                        assert(!block_resolves(blocks[b as int], *root));
                        assert(!blocks_resolve(*root));
                    }
                    return Result::Err(SemanticError::UnknownVariable(var.clone()));
                }
                proof {
                    assert(input_decls(*root)[idx as int].name@ == var@);
                    assert(block_resolves(blocks[b as int], *root));
                }
            },
            AstNode::Defuzzify { var, terms, method } => {
                if !str_eq(var.as_str(), oname.as_str()) {
                    proof {
                        assert(!block_var_resolves(blocks[b as int], *root));
                        assert(!block_resolves(blocks[b as int], *root));
                    }
                    return Result::Err(SemanticError::UnknownVariable(var.clone()));
                }
                match method {
                    Some(m) => {
                        if !str_eq(m.as_str(), "COG") {
                            proof {
                                assert(!block_method_ok(blocks[b as int]));
                                assert(!block_resolves(blocks[b as int], *root));
                            }
                            return Result::Err(SemanticError::UnknownDefuzzMethod(m.clone()));
                        }
                    },
                    None => {},
                }
                proof {
                    assert(block_resolves(blocks[b as int], *root));
                }
            },
            AstNode::RuleBlock { name, ops, rules } => {
                let nop = ops.len();
                let mut q: usize = 0;
                while q < nop
                    invariant
                        blocks == root.blocks@,
                        output_decls(*root).len() == 1,
                        names_distinct(*root),
                        0 <= b < blocks.len(),
                        blocks[b as int] matches AstNode::RuleBlock { ops: bops, .. } && bops
                            == *ops,
                        nop == ops@.len(),
                        0 <= q <= nop,
                        forall|a: int|
                            0 <= a < q ==> ((#[trigger] ops@[a]).op@ == "AND"@ && ops@[a].value@
                                == "MIN"@) || (ops@[a].op@ == "ACCU"@ && ops@[a].value@
                                == "MAX"@),
                    decreases nop - q,
                {
                    let op_ok = (str_eq(ops[q].op.as_str(), "AND") && str_eq(
                        ops[q].value.as_str(),
                        "MIN",
                    )) || (str_eq(ops[q].op.as_str(), "ACCU") && str_eq(
                        ops[q].value.as_str(),
                        "MAX",
                    ));
                    if !op_ok {
                        proof {
                            assert(!block_ops_ok(blocks[b as int]));
                            assert(!block_resolves(blocks[b as int], *root));
                            assert(!blocks_resolve(*root));
                            assert(!compile_ok(*root));
                        }
                        return Result::Err(SemanticError::UnsupportedOperator(ops[q].op.clone()));
                    }
                    q = q + 1;
                }
                proof {
                    assert(block_ops_ok(blocks[b as int]));
                    assert(block_resolves(blocks[b as int], *root));
                }
            },
            _ => {
                proof {
                    assert(block_resolves(blocks[b as int], *root));
                }
            },
        }
        b = b + 1;
    }
    proof {
        assert(blocks_resolve(*root));
    }
    // Build the input variables from their term definitions.
    let mut inputs: Vec<FuzzyVariable> = Vec::new();
    let mut i: usize = 0;
    while i < ni
        invariant
            ast_root_wf(*root),
            ni == in_names@.len(),
            ni == input_decls(*root).len(),
            forall|a: int|
                0 <= a < ni ==> (#[trigger] in_names@[a])@ == input_decls(*root)[a].name@,
            output_decls(*root).len() == 1,
            names_distinct(*root),
            blocks_resolve(*root),
            0 <= i <= ni,
            inputs@.len() == i,
            forall|k: int|
                0 <= k < i ==> var_from_terms(
                    #[trigger] inputs@[k],
                    input_decls(*root)[k].name@,
                    fuzz_terms(*root, input_decls(*root)[k].name@),
                    Option::None,
                ),
            forall|k: int|
                0 <= k < i ==> terms_ok(fuzz_terms(*root, (#[trigger] input_decls(*root)[k]).name@)),
        decreases ni - i,
    {
        let sets = match build_sets(root, &in_names[i], true) {
            Ok(s) => s,
            Err(e) => {
                proof {
                    let ti = fuzz_terms(*root, input_decls(*root)[i as int].name@);
                    assert(!terms_ok(ti));
                    assert(!all_terms_ok(*root));
                    assert(!compile_ok(*root));
                    lemma_blocks_resolve_parts(*root);
                    if all_names_unique(*root) && all_nonempty(*root) && !all_envs_ok(*root) {
                        assert(term_names_unique(ti));
                        assert(ti.len() >= 1);
                        assert(!term_envs_ok(ti));
                    }
                    if all_envs_ok(*root) && all_names_unique(*root) && !all_nonempty(*root) {
                        assert(term_envs_ok(ti));
                        assert(term_names_unique(ti));
                        assert(ti.len() == 0);
                    }
                    if all_envs_ok(*root) && all_nonempty(*root) && !all_names_unique(*root) {
                        assert(term_envs_ok(ti));
                        assert(ti.len() >= 1);
                        assert(!term_names_unique(ti));
                    }
                }
                return Result::Err(e);
            },
        };
        let v = FuzzyVariable { name: in_names[i].clone(), sets, defuzz: Option::None };
        inputs.push(v);
        i = i + 1;
    }
    // Build the output variable.
    let osets = match build_sets(root, oname, false) {
        Ok(s) => s,
        Err(e) => {
            proof {
                let ti = defuzz_terms(*root, out_name(*root));
                assert(!terms_ok(ti));
                assert(!all_terms_ok(*root));
                assert(!compile_ok(*root));
                lemma_blocks_resolve_parts(*root);
                if all_names_unique(*root) && all_nonempty(*root) && !all_envs_ok(*root) {
                    assert(term_names_unique(ti));
                    assert(ti.len() >= 1);
                    assert(!term_envs_ok(ti));
                }
                if all_envs_ok(*root) && all_names_unique(*root) && !all_nonempty(*root) {
                    assert(term_envs_ok(ti));
                    assert(term_names_unique(ti));
                    assert(ti.len() == 0);
                }
                if all_envs_ok(*root) && all_nonempty(*root) && !all_names_unique(*root) {
                    assert(term_envs_ok(ti));
                    assert(ti.len() >= 1);
                    assert(!term_names_unique(ti));
                }
            }
            return Result::Err(e);
        },
    };
    proof {
        assert(all_terms_ok(*root));
        lemma_all_terms_ok_parts(*root);
    }
    let out_var = FuzzyVariable {
        name: oname.clone(),
        sets: osets,
        defuzz: Option::Some(DefuzzMethod::CentreOfGravity),
    };
    // Gather the source rules in order.
    let mut srules: Vec<&SynRule> = Vec::new();
    let mut b: usize = 0;
    while b < nb
        invariant
            blocks == root.blocks@,
            nb == blocks.len(),
            0 <= b <= nb,
            srules@.len() == rules_upto(blocks, b as int).len(),
            forall|q: int|
                0 <= q < srules@.len() ==> *(#[trigger] srules@[q]) == rules_upto(
                    blocks,
                    b as int,
                )[q],
        decreases nb - b,
    {
        let ghost prev = rules_upto(blocks, b as int);
        match &root.blocks[b] {
            AstNode::RuleBlock { name, ops, rules } => {
                let nr = rules.len();
                let mut k: usize = 0;
                while k < nr
                    invariant
                        blocks == root.blocks@,
                        nb == blocks.len(),
                        0 <= b < nb,
                        nr == rules@.len(),
                        0 <= k <= nr,
                        prev == rules_upto(blocks, b as int),
                        rules_upto(blocks, b as int + 1) == prev + rules@,
                        srules@.len() == prev.len() + k,
                        forall|q: int|
                            0 <= q < srules@.len() ==> *(#[trigger] srules@[q]) == (prev
                                + rules@)[q],
                    decreases nr - k,
                {
                    srules.push(&rules[k]);
                    proof {
                        assert((prev + rules@)[prev.len() + k] == rules@[k as int]);
                    }
                    k = k + 1;
                }
            },
            _ => {
                proof {
                    assert(block_rules(blocks[b as int]) =~= Seq::<SynRule>::empty());
                    assert(prev + block_rules(blocks[b as int]) =~= prev);
                }
            },
        }
        b = b + 1;
    }
    // Resolve the rules.
    let nr = srules.len();
    let mut rules: Vec<Rule> = Vec::new();
    let mut k: usize = 0;
    while k < nr
        invariant
            blocks == root.blocks@,
            nr == srules@.len(),
            nr == ast_rules(*root).len(),
            forall|q: int|
                0 <= q < srules@.len() ==> *(#[trigger] srules@[q]) == ast_rules(*root)[q],
            ni == in_names@.len(),
            ni == input_decls(*root).len(),
            forall|a: int|
                0 <= a < ni ==> (#[trigger] in_names@[a])@ == input_decls(*root)[a].name@,
            inputs@.len() == ni,
            forall|q: int|
                0 <= q < inputs@.len() ==> var_from_terms(
                    #[trigger] inputs@[q],
                    input_decls(*root)[q].name@,
                    fuzz_terms(*root, input_decls(*root)[q].name@),
                    Option::None,
                ),
            output_decls(*root).len() == 1,
            names_distinct(*root),
            blocks_resolve(*root),
            all_terms_ok(*root),
            var_from_terms(
                out_var,
                out_name(*root),
                defuzz_terms(*root, out_name(*root)),
                Option::Some(DefuzzMethod::CentreOfGravity),
            ),
            0 <= k <= nr,
            rules@.len() == k,
            forall|q: int|
                0 <= q < k ==> rule_resolved(#[trigger] rules@[q], ast_rules(*root)[q], *root)
                    && rule_ok(*root, ast_rules(*root)[q]),
            forall|q: int|
                0 <= q < k ==> (#[trigger] rules@[q]).antecedents@.len() == inputs@.len() && (
                forall|j: int|
                    0 <= j < inputs@.len() ==> (#[trigger] rules@[q].antecedents@[j])
                        < inputs@[j].sets@.len()) && rules@[q].consequent < out_var.sets@.len(),
        decreases nr - k,
    {
        let rr = match resolve_rule(root, srules[k], &in_names, &inputs, &out_var) {
            Ok(r) => r,
            Err(e) => {
                proof {
                    let srk = ast_rules(*root)[k as int];
                    assert(*srules@[k as int] == srk);
                    assert(!rule_ok(*root, srk));
                    assert(!rules_ok(*root));
                    assert(!compile_ok(*root));
                    lemma_blocks_resolve_parts(*root);
                    lemma_all_terms_ok_parts(*root);
                    if all_rules_arity(*root) && all_rules_vars(*root) && all_rules_terms(
                        *root,
                    ) {
                        assert(srk.clauses@.len() == input_decls(*root).len());
                        assert(rule_vars_match(*root, srk));
                        assert(rule_terms_resolve(*root, srk));
                    }
                    if all_rules_and(*root) {
                        assert(rule_conns_and(srk)) by {
                            assert forall|c: int|
                                0 <= c < srk.connectives@.len() implies (
                            #[trigger] srk.connectives@[c]) == Connective::And by {
                                assert(ast_rules(*root)[k as int].connectives@[c]
                                    == Connective::And);
                            }
                        }
                    }
                    if all_rules_and(*root) && all_rules_vars(*root) && all_rules_terms(*root)
                        && !all_rules_arity(*root) {
                        assert(rule_conns_and(srk));
                        assert(rule_vars_match(*root, srk));
                        assert(rule_terms_resolve(*root, srk));
                        assert(srk.clauses@.len() != input_decls(*root).len());
                    }
                    if all_rules_and(*root) && all_rules_arity(*root) && all_rules_terms(*root)
                        && !all_rules_vars(*root) {
                        assert(rule_conns_and(srk));
                        assert(srk.clauses@.len() == input_decls(*root).len());
                        assert(rule_terms_resolve(*root, srk));
                        assert(!rule_vars_match(*root, srk));
                    }
                    if all_rules_and(*root) && all_rules_arity(*root) && all_rules_vars(*root)
                        && !all_rules_terms(*root) {
                        assert(rule_conns_and(srk));
                        assert(srk.clauses@.len() == input_decls(*root).len());
                        assert(rule_vars_match(*root, srk));
                        assert(!rule_terms_resolve(*root, srk));
                    }
                }
                return Result::Err(e);
            },
        };
        proof {
            assert(*srules@[k as int] == ast_rules(*root)[k as int]);
            assert(rule_ok(*root, ast_rules(*root)[k as int]));
            assert(rule_resolved(rr, ast_rules(*root)[k as int], *root));
        }
        let ghost rules0 = rules@;
        rules.push(rr);
        proof {
            assert(rules@ =~= rules0.push(rr));
            assert forall|q: int| 0 <= q < rules@.len() implies rule_resolved(
                #[trigger] rules@[q],
                ast_rules(*root)[q],
                *root,
            ) && rule_ok(*root, ast_rules(*root)[q]) by {
                if q < rules0.len() {
                    assert(rules@[q] == rules0[q]);
                    assert(rule_resolved(rules0[q], ast_rules(*root)[q], *root));
                } else {
                    assert(rules@[q] == rr);
                }
            }
        }
        k = k + 1;
    }
    let m = Mamdani { inputs, output: out_var, rules };
    proof {
        assert forall|q: int| 0 <= q < m.inputs@.len() implies (#[trigger] m.inputs@[q]).wf() by {
            lemma_var_wf(
                m.inputs@[q],
                input_decls(*root)[q].name@,
                fuzz_terms(*root, input_decls(*root)[q].name@),
                Option::None,
            );
        }
        lemma_var_wf(
            m.output,
            out_name(*root),
            defuzz_terms(*root, out_name(*root)),
            Option::Some(DefuzzMethod::CentreOfGravity),
        );
        assert forall|q: int| 0 <= q < m.rules@.len() implies m.rule_wf(
            #[trigger] m.rules@[q],
        ) by {
            assert(rules@[q].antecedents@.len() == inputs@.len());
        }
        assert(m.wf());
        assert forall|q: int| 0 <= q < ast_rules(*root).len() implies rule_ok(
            *root,
            #[trigger] ast_rules(*root)[q],
        ) by {
            let rr = rules@[q];
            assert(rule_resolved(rr, ast_rules(*root)[q], *root));
        }
        assert(rules_ok(*root));
        assert(compile_ok(*root));
        lemma_blocks_resolve_parts(*root);
        lemma_all_terms_ok_parts(*root);
        lemma_rules_ok_parts(*root);
        assert(model_from_ast(m, *root));
    }
    Result::Ok(m)
}

impl AstRoot {
    /// Compile this AST and wrap the resulting Mamdani model in a
    /// controller.
    pub fn generate_fuzzy_mamdani_program(&self) -> (r: Result<
        FuzzyController<Mamdani>,
        SemanticError,
    >)
        requires
            ast_root_wf(*self),
        ensures
            r is Ok ==> r->Ok_0.infer.wf() && model_from_ast(r->Ok_0.infer, *self),
            (r is Ok) <==> compile_ok(*self),
            r is Err ==> !(r->Err_0 is BadNumberLiteral) && !(r->Err_0 is UnknownTypeKeyword),
            (output_decls(*self).len() == 0) <==> r matches Err(
                SemanticError::MissingOutputVariable,
            ),
            (output_decls(*self).len() > 1) <==> r matches Err(
                SemanticError::MultipleOutputVariables,
            ),
            (output_decls(*self).len() == 1 && !names_distinct(*self)) <==> r matches Err(
                SemanticError::DuplicateVariableName(_),
            ),
            output_decls(*self).len() == 1 && names_distinct(*self) && (exists|b: int|
                0 <= b < self.blocks@.len() && !block_var_resolves(
                    #[trigger] self.blocks@[b],
                    *self,
                )) && (forall|b: int|
                0 <= b < self.blocks@.len() ==> block_method_ok(#[trigger] self.blocks@[b]))
                && (forall|b: int|
                0 <= b < self.blocks@.len() ==> block_ops_ok(#[trigger] self.blocks@[b])) ==> r
                matches Err(SemanticError::UnknownVariable(_)),
            output_decls(*self).len() == 1 && names_distinct(*self) && (forall|b: int|
                0 <= b < self.blocks@.len() ==> block_var_resolves(
                    #[trigger] self.blocks@[b],
                    *self,
                )) && (exists|b: int|
                0 <= b < self.blocks@.len() && !block_method_ok(#[trigger] self.blocks@[b]))
                && (forall|b: int|
                0 <= b < self.blocks@.len() ==> block_ops_ok(#[trigger] self.blocks@[b])) ==> r
                matches Err(SemanticError::UnknownDefuzzMethod(_)),
            output_decls(*self).len() == 1 && names_distinct(*self) && (forall|b: int|
                0 <= b < self.blocks@.len() ==> block_var_resolves(
                    #[trigger] self.blocks@[b],
                    *self,
                )) && (forall|b: int|
                0 <= b < self.blocks@.len() ==> block_method_ok(#[trigger] self.blocks@[b]))
                && (exists|b: int|
                0 <= b < self.blocks@.len() && !block_ops_ok(#[trigger] self.blocks@[b])) ==> r
                matches Err(SemanticError::UnsupportedOperator(_)),
            output_decls(*self).len() == 1 && names_distinct(*self) && blocks_resolve(*self)
                && !all_envs_ok(*self) && all_names_unique(*self) && all_nonempty(*self) ==> r
                matches Err(SemanticError::MalformedEnvelope(_)),
            output_decls(*self).len() == 1 && names_distinct(*self) && blocks_resolve(*self)
                && all_envs_ok(*self) && all_names_unique(*self) && !all_nonempty(*self) ==> r
                matches Err(SemanticError::MissingTermDefinitions(_)),
            output_decls(*self).len() == 1 && names_distinct(*self) && blocks_resolve(*self)
                && all_envs_ok(*self) && !all_names_unique(*self) && all_nonempty(*self) ==> r
                matches Err(SemanticError::DuplicateTermName(_)),
            output_decls(*self).len() == 1 && names_distinct(*self) && blocks_resolve(*self)
                && all_terms_ok(*self) && !all_rules_and(*self) && all_rules_arity(*self)
                && all_rules_vars(*self) && all_rules_terms(*self) ==> r matches Err(
                SemanticError::DisjunctionUnsupported,
            ),
            output_decls(*self).len() == 1 && names_distinct(*self) && blocks_resolve(*self)
                && all_terms_ok(*self) && all_rules_and(*self) && !all_rules_arity(*self)
                && all_rules_vars(*self) && all_rules_terms(*self) ==> r matches Err(
                SemanticError::RuleArityMismatch,
            ),
            output_decls(*self).len() == 1 && names_distinct(*self) && blocks_resolve(*self)
                && all_terms_ok(*self) && all_rules_and(*self) && all_rules_arity(*self)
                && !all_rules_vars(*self) && all_rules_terms(*self) ==> r matches Err(
                SemanticError::UnknownVariable(_),
            ),
            output_decls(*self).len() == 1 && names_distinct(*self) && blocks_resolve(*self)
                && all_terms_ok(*self) && all_rules_and(*self) && all_rules_arity(*self)
                && all_rules_vars(*self) && !all_rules_terms(*self) ==> r matches Err(
                SemanticError::UnknownTerm(_),
            ),
    {
        match compile_ast(self) {
            Ok(m) => Result::Ok(FuzzyController::new(m)),
            Err(e) => Result::Err(e),
        }
    }
}

} // verus!
