//! The Mamdani inference engine: fuzzification, rule evaluation with
//! Zadeh AND (minimum), aggregation with Zadeh OR (maximum), and a
//! centre-of-gravity defuzzification reduced to the activation-weighted
//! average of the output sets' representative coordinates.
use vstd::prelude::*;

verus! {

use vstd::arithmetic::div_mod::{
    lemma_div_is_ordered, lemma_div_multiples_vanish, lemma_div_pos_is_pos,
};
use vstd::arithmetic::mul::lemma_mul_inequality;
use crate::fuzzy_logic::errors::EvalError;
use crate::fuzzy_logic::functions::{COORD_MAX, SCALE};
use crate::fuzzy_logic::inference::FuzzySystem;
use crate::fuzzy_logic::{DefuzzMethod, FuzzyVariable, Rule};

/// Clamp a crisp value into the coordinate range. Membership functions
/// are constant beyond `COORD_MAX`, where no breakpoint can lie, so the
/// clamp does not change any degree.
pub open spec fn clampv(x: int) -> int {
    if x > COORD_MAX as int {
        COORD_MAX as int
    } else if x < -(COORD_MAX as int) {
        -(COORD_MAX as int)
    } else {
        x
    }
}

/// The smaller of two values (Zadeh AND).
pub open spec fn min2(a: int, b: int) -> int {
    if a <= b {
        a
    } else {
        b
    }
}

/// A Mamdani model: ordered input variables, one output variable, and
/// the resolved rules.
#[derive(Clone, Debug)]
pub struct Mamdani {
    pub inputs: Vec<FuzzyVariable>,
    pub output: FuzzyVariable,
    pub rules: Vec<Rule>,
}

impl Mamdani {
    /// A rule fits this model: one antecedent set per input variable,
    /// in declaration order, all indices in range.
    pub open spec fn rule_wf(&self, rule: Rule) -> bool {
        &&& rule.antecedents@.len() == self.inputs@.len()
        &&& forall|j: int|
            0 <= j < rule.antecedents@.len() ==> (#[trigger] rule.antecedents@[j]) < self.inputs@[j].sets@.len()
        &&& rule.consequent < self.output.sets@.len()
    }

    /// The model invariant: well-formed variables, a defuzzification
    /// method on the output, and rules that fit the variables.
    pub open spec fn wf(&self) -> bool {
        &&& forall|i: int| 0 <= i < self.inputs@.len() ==> (#[trigger] self.inputs@[i]).wf()
        &&& self.output.wf()
        &&& self.output.defuzz == Some(DefuzzMethod::CentreOfGravity)
        &&& forall|r: int| 0 <= r < self.rules@.len() ==> self.rule_wf(#[trigger] self.rules@[r])
    }

    /// The membership degree of input `i` (clamped) in set `s` of input
    /// variable `i`.
    pub open spec fn spec_degree(&self, xs: Seq<i64>, i: int, s: int) -> int {
        self.inputs@[i].sets@[s].membership_fn.spec_mem(clampv(xs[i] as int))
    }

    /// The firing strength of `rule` restricted to its first `n`
    /// antecedents: the minimum of their degrees (`SCALE`, the neutral
    /// element of minimum, for an empty prefix).
    pub open spec fn strength_upto(&self, xs: Seq<i64>, rule: Rule, n: int) -> int
        decreases n,
    {
        if n <= 0 {
            SCALE as int
        } else {
            min2(
                self.strength_upto(xs, rule, n - 1),
                self.spec_degree(xs, n - 1, rule.antecedents@[n - 1] as int),
            )
        }
    }

    /// The firing strength of `rule`: the Zadeh AND of all its
    /// antecedent degrees.
    pub open spec fn spec_strength(&self, xs: Seq<i64>, rule: Rule) -> int {
        self.strength_upto(xs, rule, rule.antecedents@.len() as int)
    }

    /// The aggregated activation of output set `s` over the first `n`
    /// rules: the maximum firing strength among those that conclude in
    /// `s`, and 0 when none does.
    pub open spec fn act_upto(&self, xs: Seq<i64>, s: int, n: int) -> int
        decreases n,
    {
        if n <= 0 {
            0
        } else {
            let prev = self.act_upto(xs, s, n - 1);
            let st = self.spec_strength(xs, self.rules@[n - 1]);
            if self.rules@[n - 1].consequent == s && st > prev {
                st
            } else {
                prev
            }
        }
    }

    /// The aggregated activation of output set `s` over all rules.
    pub open spec fn spec_activation(&self, xs: Seq<i64>, s: int) -> int {
        self.act_upto(xs, s, self.rules@.len() as int)
    }

    /// Weighted sum of the first `n` output sets' representative
    /// coordinates, shifted by `COORD_MAX` to keep every summand
    /// non-negative.
    pub open spec fn wsum_upto(&self, xs: Seq<i64>, n: int) -> int
        decreases n,
    {
        if n <= 0 {
            0
        } else {
            self.wsum_upto(xs, n - 1) + self.spec_activation(xs, n - 1) * (
            self.output.sets@[n - 1].membership_fn.spec_rep() + COORD_MAX)
        }
    }

    /// Sum of the activations of the first `n` output sets.
    pub open spec fn asum_upto(&self, xs: Seq<i64>, n: int) -> int
        decreases n,
    {
        if n <= 0 {
            0
        } else {
            self.asum_upto(xs, n - 1) + self.spec_activation(xs, n - 1)
        }
    }

    /// The crisp output: the activation-weighted average of the output
    /// sets' representative coordinates, rounded toward negative
    /// infinity, and 0 when no rule fires at a positive strength.
    pub open spec fn spec_crisp(&self, xs: Seq<i64>) -> int {
        let n = self.output.sets@.len() as int;
        if self.asum_upto(xs, n) == 0 {
            0
        } else {
            self.wsum_upto(xs, n) / self.asum_upto(xs, n) - COORD_MAX
        }
    }
}

impl FuzzySystem for Mamdani {
    open spec fn sys_wf(&self) -> bool {
        self.wf()
    }

    open spec fn spec_n_inputs(&self) -> nat {
        self.inputs@.len()
    }

    open spec fn spec_fuzzified(&self, xs: Seq<i64>) -> Seq<Seq<int>> {
        Seq::new(
            self.inputs@.len(),
            |i: int| Seq::new(self.inputs@[i].sets@.len(), |s: int| self.spec_degree(xs, i, s)),
        )
    }

    open spec fn spec_infer(&self, xs: Seq<i64>) -> Result<i64, EvalError> {
        if xs.len() != self.inputs@.len() {
            Result::Err(EvalError::DimensionMismatch)
        } else if self.rules@.len() == 0 {
            Result::Err(EvalError::EmptyRuleSet)
        } else {
            Result::Ok(self.spec_crisp(xs) as i64)
        }
    }

    fn fuzzify(&self, input_values: &Vec<i64>) -> (r: Vec<Vec<i64>>)
    {
        let mut out: Vec<Vec<i64>> = Vec::new();
        let n = self.inputs.len();
        let mut i: usize = 0;
        while i < n
            invariant
                self.wf(),
                input_values@.len() == self.inputs@.len(),
                n == self.inputs@.len(),
                0 <= i <= n,
                out@.len() == i,
                forall|k: int|
                    0 <= k < i ==> (#[trigger] out@[k])@.len() == self.inputs@[k].sets@.len(),
                forall|k: int, j: int|
                    0 <= k < i && 0 <= j < out@[k]@.len() ==> (#[trigger] out@[k]@[j]) as int
                        == self.spec_degree(input_values@, k, j),
            decreases n - i,
        {
            let x = clamp_coord(input_values[i]);
            let var = &self.inputs[i];
            let m = var.sets.len();
            let mut row: Vec<i64> = Vec::new();
            let mut j: usize = 0;
            while j < m
                invariant
                    self.wf(),
                    input_values@.len() == self.inputs@.len(),
                    0 <= i < self.inputs@.len(),
                    var == self.inputs@[i as int],
                    m == var.sets@.len(),
                    0 <= j <= m,
                    row@.len() == j,
                    x as int == clampv(input_values@[i as int] as int),
                    -COORD_MAX <= x <= COORD_MAX,
                    forall|q: int|
                        0 <= q < j ==> (#[trigger] row@[q]) as int == self.spec_degree(
                            input_values@,
                            i as int,
                            q,
                        ),
                decreases m - j,
            {
                assert(var.sets@[j as int].wf());
                let d = var.sets[j].membership(x);
                row.push(d);
                j = j + 1;
            }
            out.push(row);
            i = i + 1;
        }
        out
    }

    fn infer(&self, input_values: &Vec<i64>) -> (r: Result<i64, EvalError>)
    {
        if input_values.len() != self.inputs.len() {
            return Result::Err(EvalError::DimensionMismatch);
        }
        if self.rules.len() == 0 {
            return Result::Err(EvalError::EmptyRuleSet);
        }
        let ghost xs = input_values@;
        let degrees = self.fuzzify(input_values);

        // Rule evaluation: the firing strength of each rule.
        let nr = self.rules.len();
        let mut strengths: Vec<i64> = Vec::new();
        let mut r: usize = 0;
        while r < nr
            invariant
                self.wf(),
                xs == input_values@,
                xs.len() == self.inputs@.len(),
                nr == self.rules@.len(),
                0 <= r <= nr,
                strengths@.len() == r,
                degrees@.len() == self.inputs@.len(),
                forall|i: int|
                    0 <= i < degrees@.len() ==> (#[trigger] degrees@[i])@.len()
                        == self.inputs@[i].sets@.len(),
                forall|i: int, j: int|
                    0 <= i < degrees@.len() && 0 <= j < degrees@[i]@.len() ==> (
                    #[trigger] degrees@[i]@[j]) as int == self.spec_degree(xs, i, j),
                forall|k: int|
                    0 <= k < r ==> (#[trigger] strengths@[k]) as int == self.spec_strength(
                        xs,
                        self.rules@[k],
                    ),
                forall|k: int| 0 <= k < r ==> 0 <= (#[trigger] strengths@[k]) <= SCALE,
            decreases nr - r,
        {
            let rule = &self.rules[r];
            assert(self.rule_wf(self.rules@[r as int]));
            let na = rule.antecedents.len();
            let mut st: i64 = SCALE;
            let mut j: usize = 0;
            while j < na
                invariant
                    self.wf(),
                    xs.len() == self.inputs@.len(),
                    0 <= r < self.rules@.len(),
                    rule == self.rules@[r as int],
                    self.rule_wf(self.rules@[r as int]),
                    na == rule.antecedents@.len(),
                    0 <= j <= na,
                    degrees@.len() == self.inputs@.len(),
                    forall|i: int|
                        0 <= i < degrees@.len() ==> (#[trigger] degrees@[i])@.len()
                            == self.inputs@[i].sets@.len(),
                    forall|i: int, q: int|
                        0 <= i < degrees@.len() && 0 <= q < degrees@[i]@.len() ==> (
                        #[trigger] degrees@[i]@[q]) as int == self.spec_degree(xs, i, q),
                    st as int == self.strength_upto(xs, *rule, j as int),
                    0 <= st <= SCALE,
                decreases na - j,
            {
                let si = rule.antecedents[j];
                let d = degrees[j][si];
                proof {
                    assert(self.inputs@[j as int].wf());
                    self.inputs@[j as int].sets@[si as int].membership_fn.lemma_mem_bounds(
                        clampv(xs[j as int] as int),
                    );
                }
                if d < st {
                    st = d;
                }
                j = j + 1;
            }
            strengths.push(st);
            r = r + 1;
        }

        // Aggregation and defuzzification over the output sets.
        let ns = self.output.sets.len();
        let mut wsum: i128 = 0;
        let mut asum: i128 = 0;
        let mut s: usize = 0;
        while s < ns
            invariant
                self.wf(),
                xs.len() == self.inputs@.len(),
                nr == self.rules@.len(),
                ns == self.output.sets@.len(),
                0 <= s <= ns,
                strengths@.len() == nr,
                forall|k: int|
                    0 <= k < nr ==> (#[trigger] strengths@[k]) as int == self.spec_strength(
                        xs,
                        self.rules@[k],
                    ),
                forall|k: int| 0 <= k < nr ==> 0 <= (#[trigger] strengths@[k]) <= SCALE,
                wsum as int == self.wsum_upto(xs, s as int),
                asum as int == self.asum_upto(xs, s as int),
                0 <= asum as int <= (s as int) * (SCALE as int),
                0 <= wsum as int <= (asum as int) * (2 * COORD_MAX as int),
            decreases ns - s,
        {
            let mut act: i64 = 0;
            let mut k: usize = 0;
            while k < nr
                invariant
                    self.wf(),
                    xs.len() == self.inputs@.len(),
                    nr == self.rules@.len(),
                    0 <= s < self.output.sets@.len(),
                    0 <= k <= nr,
                    strengths@.len() == nr,
                    forall|q: int|
                        0 <= q < nr ==> (#[trigger] strengths@[q]) as int == self.spec_strength(
                            xs,
                            self.rules@[q],
                        ),
                    forall|q: int| 0 <= q < nr ==> 0 <= (#[trigger] strengths@[q]) <= SCALE,
                    act as int == self.act_upto(xs, s as int, k as int),
                    0 <= act <= SCALE,
                decreases nr - k,
            {
                if self.rules[k].consequent == s && strengths[k] > act {
                    act = strengths[k];
                }
                k = k + 1;
            }
            assert(act as int == self.spec_activation(xs, s as int));
            assert(self.output.sets@[s as int].wf());
            let rep = self.output.sets[s].membership_fn.representative();
            proof {
                lemma_mul_inequality(
                    rep as int + COORD_MAX,
                    2 * COORD_MAX as int,
                    act as int,
                );
                lemma_mul_inequality(0, rep as int + COORD_MAX, act as int);
                assert((rep as int + COORD_MAX) * (act as int) == (act as int) * (rep as int
                    + COORD_MAX));
                assert((2 * COORD_MAX as int) * (act as int) == (act as int) * (2
                    * COORD_MAX as int));
                assert((act as int) * (2 * COORD_MAX as int) <= (SCALE as int) * (2
                    * COORD_MAX as int)) by {
                    lemma_mul_inequality(act as int, SCALE as int, 2 * COORD_MAX as int);
                }
                assert((asum as int + act as int) * (2 * COORD_MAX as int) == (asum as int) * (2
                    * COORD_MAX as int) + (act as int) * (2 * COORD_MAX as int))
                    by (nonlinear_arith);
                assert((s as int) * (SCALE as int) + SCALE as int == (s as int + 1) * (
                SCALE as int)) by (nonlinear_arith);
                assert((s as int + 1) * (SCALE as int) <= 0x1_0000_0000_0000_0000 * (
                SCALE as int)) by {
                    lemma_mul_inequality(s as int + 1, 0x1_0000_0000_0000_0000, SCALE as int);
                }
                assert((asum as int) * (2 * COORD_MAX as int) <= (0x1_0000_0000_0000_0000 * (
                SCALE as int)) * (2 * COORD_MAX as int)) by {
                    lemma_mul_inequality(
                        asum as int,
                        0x1_0000_0000_0000_0000 * (SCALE as int),
                        2 * COORD_MAX as int,
                    );
                }
            }
            wsum = wsum + (act as i128) * ((rep as i128) + (COORD_MAX as i128));
            asum = asum + (act as i128);
            s = s + 1;
        }
        let crisp: i128 = if asum == 0 {
            0
        } else {
            proof {
                lemma_div_pos_is_pos(wsum as int, asum as int);
                lemma_div_is_ordered(wsum as int, (asum as int) * (2 * COORD_MAX as int), asum as int);
                lemma_div_multiples_vanish(2 * COORD_MAX as int, asum as int);
            }
            wsum / asum - (COORD_MAX as i128)
        };
        assert(crisp as int == self.spec_crisp(xs));
        assert(-(COORD_MAX as int) <= crisp as int <= COORD_MAX as int);
        Result::Ok(crisp as i64)
    }
}

/// Clamp a crisp input into the coordinate range.
pub fn clamp_coord(x: i64) -> (r: i64)
    ensures
        r as int == clampv(x as int),
        -COORD_MAX <= r <= COORD_MAX,
{
    if x > COORD_MAX {
        COORD_MAX
    } else if x < -COORD_MAX {
        -COORD_MAX
    } else {
        x
    }
}

impl Mamdani {
    /// Assemble a model from its parts. The caller supplies parts that
    /// satisfy the model invariant; the compiler always does.
    pub fn new(inputs: Vec<FuzzyVariable>, output: FuzzyVariable, rules: Vec<Rule>) -> (r: Mamdani)
        requires
            ({
                let m = Mamdani { inputs, output, rules };
                m.wf()
            }),
        ensures
            r == (Mamdani { inputs, output, rules }),
            r.wf(),
    {
        Mamdani { inputs, output, rules }
    }
}

/// Law: a rule whose every antecedent degree is full fires at full
/// strength (the minimum of degrees that all equal `SCALE` is `SCALE`).
pub proof fn lemma_full_strength(m: Mamdani, xs: Seq<i64>, rule: Rule)
    requires
        forall|j: int|
            0 <= j < rule.antecedents@.len() ==> m.spec_degree(
                xs,
                j,
                #[trigger] rule.antecedents@[j] as int,
            ) == SCALE,
    ensures
        m.spec_strength(xs, rule) == SCALE,
{
    lemma_full_strength_upto(m, xs, rule, rule.antecedents@.len() as int);
}

proof fn lemma_full_strength_upto(m: Mamdani, xs: Seq<i64>, rule: Rule, n: int)
    requires
        n <= rule.antecedents@.len(),
        forall|j: int|
            0 <= j < rule.antecedents@.len() ==> m.spec_degree(
                xs,
                j,
                #[trigger] rule.antecedents@[j] as int,
            ) == SCALE,
    ensures
        m.strength_upto(xs, rule, n) == SCALE,
    decreases n,
{
    if n > 0 {
        lemma_full_strength_upto(m, xs, rule, n - 1);
    }
}

/// Law: the aggregated activation of an output set is at least the
/// firing strength of every rule that concludes in that set.
pub proof fn lemma_activation_covers(m: Mamdani, xs: Seq<i64>, r: int)
    requires
        0 <= r < m.rules@.len(),
    ensures
        m.spec_activation(xs, m.rules@[r].consequent as int) >= m.spec_strength(xs, m.rules@[r]),
{
    lemma_activation_covers_upto(m, xs, r, m.rules@.len() as int);
}

proof fn lemma_activation_covers_upto(m: Mamdani, xs: Seq<i64>, r: int, n: int)
    requires
        0 <= r < n,
        n <= m.rules@.len(),
    ensures
        m.act_upto(xs, m.rules@[r].consequent as int, n) >= m.spec_strength(xs, m.rules@[r]),
    decreases n,
{
    if r < n - 1 {
        lemma_activation_covers_upto(m, xs, r, n - 1);
    }
}

/// Law: a rule whose every antecedent degree is full fires at full
/// strength and drives its consequent set's aggregated activation to
/// full degree.
pub proof fn lemma_rule_drives_consequent(m: Mamdani, xs: Seq<i64>, r: int)
    requires
        m.wf(),
        xs.len() == m.inputs@.len(),
        0 <= r < m.rules@.len(),
        forall|j: int|
            0 <= j < m.rules@[r].antecedents@.len() ==> m.spec_degree(
                xs,
                j,
                #[trigger] m.rules@[r].antecedents@[j] as int,
            ) == SCALE,
    ensures
        m.spec_strength(xs, m.rules@[r]) == SCALE,
        m.spec_activation(xs, m.rules@[r].consequent as int) == SCALE,
{
    lemma_full_strength(m, xs, m.rules@[r]);
    lemma_activation_covers(m, xs, r);
    lemma_activation_bounds(m, xs, m.rules@[r].consequent as int);
}

/// Law: every aggregated activation lies in `[0, SCALE]` when the model
/// is well formed.
pub proof fn lemma_activation_bounds(m: Mamdani, xs: Seq<i64>, s: int)
    requires
        m.wf(),
        xs.len() == m.inputs@.len(),
    ensures
        0 <= m.spec_activation(xs, s) <= SCALE,
{
    lemma_act_upto_bounds(m, xs, s, m.rules@.len() as int);
}

proof fn lemma_strength_upto_bounds(m: Mamdani, xs: Seq<i64>, rule: Rule, n: int)
    requires
        m.wf(),
        m.rule_wf(rule),
        n <= rule.antecedents@.len(),
    ensures
        0 <= m.strength_upto(xs, rule, n) <= SCALE,
    decreases n,
{
    if n > 0 {
        lemma_strength_upto_bounds(m, xs, rule, n - 1);
        let i = n - 1;
        let si = rule.antecedents@[i] as int;
        m.inputs@[i].sets@[si].membership_fn.lemma_mem_bounds(clampv(xs[i] as int));
    }
}

proof fn lemma_act_upto_bounds(m: Mamdani, xs: Seq<i64>, s: int, n: int)
    requires
        m.wf(),
        n <= m.rules@.len(),
    ensures
        0 <= m.act_upto(xs, s, n) <= SCALE,
    decreases n,
{
    if n > 0 {
        lemma_act_upto_bounds(m, xs, s, n - 1);
        assert(m.rule_wf(m.rules@[n - 1]));
        lemma_strength_upto_bounds(m, xs, m.rules@[n - 1], m.rules@[n - 1].antecedents@.len() as int);
    }
}

} // verus!
