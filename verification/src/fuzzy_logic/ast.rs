//! AST builder: turns the syntax tree into typed nodes by one walk,
//! converting numeric literals to fixed-point values and type keywords
//! to `VarType`. A literal that cannot be represented, or a type
//! keyword other than `REAL` / `BOOL`, is a `SemanticError`.
use vstd::prelude::*;

verus! {

use vstd::string::StrSliceExecFns;
use crate::fuzzy_logic::control_language::{
    Connective, SynBlock, SynClause, SynDecl, SynFcl, SynOpDecl, SynPoint, SynRule, SynTerm,
    str_eq, syn_block_wf, syn_decl_wf, syn_fcl_wf, syn_point_wf, syn_term_wf,
};
use crate::fuzzy_logic::errors::SemanticError;
use crate::fuzzy_logic::functions::{COORD_MAX, Point, SCALE};
use crate::fuzzy_logic::lexer::{
    all_digits, dot_split_at, is_digit_c, number_body_shape, number_shape,
};

/// Largest representable integer part of a literal.
pub const LIT_INT_MAX: i64 = 999_999_999_999;

/// Largest magnitude of a parsed literal, in fixed point:
/// `LIT_INT_MAX * SCALE + 999`.
pub const LIT_MAG_MAX: i64 = 999_999_999_999_999;

/// The number a digit string stands for.
pub open spec fn digits_val(s: Seq<char>) -> int
    decreases s.len(),
{
    if s.len() == 0 {
        0
    } else {
        digits_val(s.drop_last()) * 10 + (s.last() as u32 as int - '0' as u32 as int)
    }
}

/// First index of a decimal point at or after `i`, or the length.
pub open spec fn dot_pos(b: Seq<char>, i: int) -> int
    decreases b.len() - i,
{
    if !(0 <= i < b.len()) {
        b.len() as int
    } else if b[i] == '.' {
        i
    } else {
        dot_pos(b, i + 1)
    }
}

pub open spec fn lit_neg(s: Seq<char>) -> bool {
    s.len() > 0 && s[0] == '-'
}

/// The unsigned body of a literal.
pub open spec fn lit_body(s: Seq<char>) -> Seq<char> {
    if lit_neg(s) {
        s.skip(1)
    } else {
        s
    }
}

pub open spec fn lit_int_digits(s: Seq<char>) -> Seq<char> {
    lit_body(s).take(dot_pos(lit_body(s), 0))
}

pub open spec fn lit_frac_digits(s: Seq<char>) -> Seq<char> {
    if dot_pos(lit_body(s), 0) < lit_body(s).len() {
        lit_body(s).skip(dot_pos(lit_body(s), 0) + 1)
    } else {
        Seq::empty()
    }
}

/// `10^(3 - k)` for `k` between 0 and 3.
pub open spec fn frac_scale_for(k: int) -> int {
    if k >= 3 {
        1
    } else if k == 2 {
        10
    } else if k == 1 {
        100
    } else {
        1000
    }
}

/// The fractional digits, scaled to three decimal places (further
/// digits are dropped; a literal with a non-zero fourth fractional
/// digit is not representable).
pub open spec fn frac_scaled(f: Seq<char>) -> int {
    if f.len() >= 3 {
        digits_val(f.take(3))
    } else {
        digits_val(f) * frac_scale_for(f.len() as int)
    }
}

/// The fixed-point magnitude of a literal.
pub open spec fn lit_mag(s: Seq<char>) -> int {
    digits_val(lit_int_digits(s)) * (SCALE as int) + frac_scaled(lit_frac_digits(s))
}

/// The fixed-point value of a literal.
pub open spec fn lit_val(s: Seq<char>) -> int {
    if lit_neg(s) {
        -lit_mag(s)
    } else {
        lit_mag(s)
    }
}

/// A literal is representable: well shaped, integer part within range,
/// and no precision beyond three fractional digits.
pub open spec fn lit_ok(s: Seq<char>) -> bool {
    &&& number_shape(s)
    &&& digits_val(lit_int_digits(s)) <= LIT_INT_MAX
    &&& forall|i: int| 3 <= i < lit_frac_digits(s).len() ==> lit_frac_digits(s)[i] == '0'
}

/// Digit strings denote non-negative values; up to three digits stay
/// under 1000.
proof fn lemma_digits_val_nonneg(s: Seq<char>)
    requires
        forall|i: int| 0 <= i < s.len() ==> is_digit_c(#[trigger] s[i]),
    ensures
        0 <= digits_val(s),
        s.len() <= 1 ==> digits_val(s) <= 9,
        s.len() <= 2 ==> digits_val(s) <= 99,
        s.len() <= 3 ==> digits_val(s) <= 999,
    decreases s.len(),
{
    if s.len() > 0 {
        assert(forall|i: int|
            0 <= i < s.drop_last().len() ==> is_digit_c(#[trigger] s.drop_last()[i]));
        lemma_digits_val_nonneg(s.drop_last());
    }
}

/// Appending digits never shrinks the value.
proof fn lemma_digits_val_mono(s: Seq<char>, m: int, k: int)
    requires
        forall|i: int| 0 <= i < s.len() ==> is_digit_c(#[trigger] s[i]),
        0 <= m <= k <= s.len(),
    ensures
        digits_val(s.take(m)) <= digits_val(s.take(k)),
    decreases k - m,
{
    if m < k {
        lemma_digits_val_mono(s, m, k - 1);
        assert(s.take(k).drop_last() =~= s.take(k - 1));
        assert(forall|i: int| 0 <= i < s.take(k - 1).len() ==> is_digit_c(#[trigger] s.take(k - 1)[i]));
        lemma_digits_val_nonneg(s.take(k - 1));
    }
}

/// A dot split determines the first dot position.
proof fn lemma_dot_pos_of_split(b: Seq<char>, k: int)
    requires
        dot_split_at(b, k),
    ensures
        dot_pos(b, 0) == k,
{
    lemma_dot_pos_scan(b, 0, k);
}

proof fn lemma_dot_pos_scan(b: Seq<char>, i: int, k: int)
    requires
        0 <= i <= k < b.len(),
        b[k] == '.',
        forall|j: int| 0 <= j < k ==> is_digit_c(#[trigger] b.take(k)[j]),
    ensures
        dot_pos(b, i) == k,
    decreases k - i,
{
    if i < k {
        assert(b.take(k)[i] == b[i]);
        assert(is_digit_c(b[i]));
        assert(b[i] != '.');
        lemma_dot_pos_scan(b, i + 1, k);
    }
}

/// With no dot anywhere, the scan runs to the end.
proof fn lemma_dot_pos_all_digits(b: Seq<char>, i: int)
    requires
        forall|j: int| 0 <= j < b.len() ==> is_digit_c(#[trigger] b[j]),
        0 <= i,
    ensures
        dot_pos(b, i) == b.len(),
    decreases b.len() - i,
{
    if i < b.len() {
        lemma_dot_pos_all_digits(b, i + 1);
    }
}

/// Parse a numeric literal into a fixed-point value, exactly when the
/// literal is representable.
pub fn parse_scaled_literal(s: &str) -> (r: Result<i64, SemanticError>)
    requires
        number_shape(s@),
    ensures
        r is Ok ==> lit_ok(s@) && r->Ok_0 as int == lit_val(s@) && -LIT_MAG_MAX <= r->Ok_0
            <= LIT_MAG_MAX,
        r is Err ==> !lit_ok(s@) && r->Err_0 is BadNumberLiteral,
{
    let n = s.unicode_len();
    let ghost b = lit_body(s@);
    let mut i: usize = 0;
    let neg = s.get_char(0) == '-';
    if neg {
        i = 1;
    }
    let ghost b0 = i as int;
    proof {
        assert(b =~= s@.skip(b0));
        if lit_neg(s@) {
            assert(number_body_shape(s@.skip(1)));
        } else {
            assert(number_body_shape(s@));
            assert(s@.skip(0) =~= s@);
        }
        // The first dot position splits the body into digits and
        // (optionally) a fractional part.
        if all_digits(b) {
            lemma_dot_pos_all_digits(b, 0);
        } else {
            let k = choose|k: int| dot_split_at(b, k);
            lemma_dot_pos_of_split(b, k);
        }
    }
    let ghost dp = dot_pos(b, 0);
    proof {
        assert(0 <= dp <= b.len());
        assert(dp < b.len() ==> b[dp] == '.');
        assert forall|j: int| 0 <= j < dp implies is_digit_c(#[trigger] b[j]) by {
            if all_digits(b) {
            } else {
                let k = choose|k: int| dot_split_at(b, k);
                assert(b.take(k)[j] == b[j]);
            }
        }
        assert forall|j: int| dp < j < b.len() implies is_digit_c(#[trigger] b[j]) by {
            let k = choose|k: int| dot_split_at(b, k);
            assert(b.skip(k + 1)[j - k - 1] == b[j]);
        }
        assert(dp == b.len() || dp >= 1);
        assert(b.len() >= 1);
    }
    // Integer part.
    let mut acc: i64 = 0;
    while i < n && s.get_char(i) != '.'
        invariant
            n == s@.len(),
            b == lit_body(s@),
            b =~= s@.skip(b0),
            0 <= b0 <= i as int <= n,
            b0 + b.len() == n,
            dp == dot_pos(b, 0),
            0 <= dp <= b.len(),
            dp < b.len() ==> b[dp] == '.',
            forall|j: int| 0 <= j < dp ==> is_digit_c(#[trigger] b[j]),
            forall|j: int| dp < j < b.len() ==> is_digit_c(#[trigger] b[j]),
            i as int - b0 <= dp,
            acc as int == digits_val(b.take(i as int - b0)),
            0 <= acc <= LIT_INT_MAX,
        decreases n - i,
    {
        let c = s.get_char(i);
        proof {
            assert(b[i as int - b0] == s@[i as int]);
            assert(i as int - b0 < dp || i as int - b0 == dp);
            assert(is_digit_c(c));
        }
        let d = (c as u32) - 48;
        if acc >= 100_000_000_000 {
            proof {
                let m = i as int - b0;
                assert(b.take(m + 1).drop_last() =~= b.take(m));
                assert(digits_val(b.take(m + 1)) == acc as int * 10 + d);
                assert(digits_val(b.take(m + 1)) > LIT_INT_MAX);
                lemma_digits_val_mono(b.take(dp), m + 1, dp);
                assert(b.take(dp).take(m + 1) =~= b.take(m + 1));
                assert(b.take(dp).take(dp) =~= b.take(dp));
                assert(lit_int_digits(s@) == b.take(dp));
            }
            return Result::Err(SemanticError::BadNumberLiteral(s.to_owned()));
        }
        proof {
            let m = i as int - b0;
            assert(b.take(m + 1).drop_last() =~= b.take(m));
        }
        acc = acc * 10 + (d as i64);
        i = i + 1;
    }
    proof {
        // The loop stopped at the dot (or the end), so the integer
        // part is exactly what was accumulated.
        assert(i as int - b0 == dp) by {
            if (i as int) < n {
                assert(s@[i as int] == '.');
                assert(b[i as int - b0] == '.');
                if i as int - b0 < dp {
                    assert(is_digit_c(b[i as int - b0]));
                    assert(false);
                }
            } else {
                assert(i as int - b0 == b.len());
            }
        }
        assert(lit_int_digits(s@) == b.take(dp));
        assert(digits_val(lit_int_digits(s@)) == acc as int);
    }
    // Fractional part.
    let mut frac: i64 = 0;
    let mut nfrac: usize = 0;
    let ghost f = lit_frac_digits(s@);
    if i < n {
        // Skip the dot.
        i = i + 1;
        proof {
            assert(f =~= b.skip(dp + 1));
            assert(f =~= s@.skip(i as int));
            assert(forall|j: int| 0 <= j < f.len() ==> is_digit_c(#[trigger] f[j]));
        }
        let f0 = i;
        while i < n && nfrac < 3
            invariant
                n == s@.len(),
                f =~= s@.skip(f0 as int),
                f0 as int + f.len() == n,
                forall|j: int| 0 <= j < f.len() ==> is_digit_c(#[trigger] f[j]),
                f0 <= i <= n,
                nfrac == i - f0,
                nfrac <= 3,
                frac as int == digits_val(f.take(i as int - f0)),
                0 <= frac <= 999,
            decreases n - i,
        {
            let c = s.get_char(i);
            proof {
                assert(f[i as int - f0] == s@[i as int]);
                let m = i as int - f0;
                assert(f.take(m + 1).drop_last() =~= f.take(m));
                lemma_digits_val_nonneg(f.take(m + 1));
                assert(forall|j: int| 0 <= j < f.take(m + 1).len() ==> is_digit_c(
                    #[trigger] f.take(m + 1)[j],
                ));
            }
            let d = (c as u32) - 48;
            frac = frac * 10 + (d as i64);
            nfrac = nfrac + 1;
            i = i + 1;
        }
        // Any further fractional digits must be zero.
        if nfrac == 3 {
            while i < n
                invariant
                    n == s@.len(),
                    f == lit_frac_digits(s@),
                    f =~= s@.skip(f0 as int),
                    f0 as int + f.len() == n,
                    forall|j: int| 0 <= j < f.len() ==> is_digit_c(#[trigger] f[j]),
                    f0 <= i <= n,
                    3 <= i - f0,
                    forall|j: int| 3 <= j < i as int - f0 ==> f[j] == '0',
                decreases n - i,
            {
                let c = s.get_char(i);
                if c != '0' {
                    proof {
                        assert(f[i as int - f0] != '0');
                        assert(lit_frac_digits(s@)[i as int - f0] != '0');
                        assert(3 <= i as int - f0 < lit_frac_digits(s@).len());
                        assert(!lit_ok(s@));
                    }
                    return Result::Err(SemanticError::BadNumberLiteral(s.to_owned()));
                }
                i = i + 1;
            }
        }
        // Scale the collected digits to three places.
        if nfrac == 1 {
            frac = frac * 100;
        } else if nfrac == 2 {
            frac = frac * 10;
        }
        proof {
            if f.len() >= 3 {
                assert(f.take(3) =~= f.take(i as int - f0).take(3)) by {
                    assert(nfrac == 3 || i as int == n);
                }
                assert(f.take(3) =~= f.take(3));
            } else {
                assert(f.take(f.len() as int) =~= f);
            }
        }
    } else {
        proof {
            assert(dp == b.len());
            assert(f =~= Seq::<char>::empty());
        }
    }
    proof {
        assert(frac as int == frac_scaled(f)) by {
            if f.len() >= 3 {
                assert(f.take(3) =~= f.take(3));
            } else {
                assert(f.take(f.len() as int) =~= f);
                lemma_digits_val_nonneg(f);
            }
        }
        assert(0 <= frac_scaled(f) <= 999) by {
            if f.len() >= 3 {
                lemma_digits_val_nonneg(f.take(3));
                assert(forall|j: int| 0 <= j < f.take(3).len() ==> is_digit_c(
                    #[trigger] f.take(3)[j],
                ));
            } else {
                lemma_digits_val_nonneg(f);
            }
        }
    }
    let mag: i64 = acc * SCALE + frac;
    assert(mag as int == lit_mag(s@));
    assert(lit_ok(s@));
    if neg {
        Result::Ok(-mag)
    } else {
        Result::Ok(mag)
    }
}

/// Variable types of the FCL grammar.
#[derive(Clone, Copy, Debug, PartialEq, Eq, Structural)]
pub enum VarType {
    Number,
    Boolean,
}

/// A typed variable declaration.
#[derive(Debug)]
pub struct AstDecl {
    pub name: String,
    pub ty: VarType,
}

/// A term with its envelope converted to fixed-point breakpoints.
#[derive(Debug)]
pub struct AstTerm {
    pub name: String,
    pub envelope: Vec<Point>,
}

/// A typed block of the AST.
#[derive(Debug)]
pub enum AstNode {
    VarInput(Vec<AstDecl>),
    VarOutput(Vec<AstDecl>),
    Fuzzify { var: String, terms: Vec<AstTerm> },
    Defuzzify { var: String, terms: Vec<AstTerm>, method: Option<String> },
    RuleBlock { name: String, ops: Vec<SynOpDecl>, rules: Vec<SynRule> },
}

/// The root of the AST: the function block's name, if any, and its
/// blocks in source order.
#[derive(Debug)]
pub struct AstRoot {
    pub name: Option<String>,
    pub blocks: Vec<AstNode>,
}

pub open spec fn ast_term_wf(t: AstTerm) -> bool {
    &&& t.envelope@.len() >= 1
    &&& forall|i: int|
        0 <= i < t.envelope@.len() ==> -LIT_MAG_MAX <= (#[trigger] t.envelope@[i]).x
            <= LIT_MAG_MAX && -LIT_MAG_MAX <= t.envelope@[i].y <= LIT_MAG_MAX
}

pub open spec fn ast_block_wf(b: AstNode) -> bool {
    match b {
        AstNode::VarInput(ds) => true,
        AstNode::VarOutput(ds) => true,
        AstNode::Fuzzify { var, terms } => forall|i: int|
            0 <= i < terms@.len() ==> ast_term_wf(#[trigger] terms@[i]),
        AstNode::Defuzzify { var, terms, method } => forall|i: int|
            0 <= i < terms@.len() ==> ast_term_wf(#[trigger] terms@[i]),
        AstNode::RuleBlock { name, ops, rules } => forall|i: int|
            0 <= i < rules@.len() ==> crate::fuzzy_logic::control_language::syn_rule_wf(
                #[trigger] rules@[i],
            ),
    }
}

pub open spec fn ast_root_wf(r: AstRoot) -> bool {
    forall|i: int| 0 <= i < r.blocks@.len() ==> ast_block_wf(#[trigger] r.blocks@[i])
}

/// A breakpoint is the exact fixed-point reading of its literals.
pub open spec fn point_matches(p: Point, sp: SynPoint) -> bool {
    &&& lit_ok(sp.x@)
    &&& lit_ok(sp.y@)
    &&& p.x as int == lit_val(sp.x@)
    &&& p.y as int == lit_val(sp.y@)
}

pub open spec fn term_matches(t: AstTerm, st: SynTerm) -> bool {
    &&& t.name@ == st.name@
    &&& t.envelope@.len() == st.points@.len()
    &&& forall|i: int|
        0 <= i < t.envelope@.len() ==> point_matches(#[trigger] t.envelope@[i], st.points@[i])
}

pub open spec fn ty_matches(t: VarType, s: Seq<char>) -> bool {
    ||| (t == VarType::Number && s == "REAL"@)
    ||| (t == VarType::Boolean && s == "BOOL"@)
}

pub open spec fn decl_matches(d: AstDecl, sd: SynDecl) -> bool {
    &&& d.name@ == sd.name@
    &&& ty_matches(d.ty, sd.ty@)
}

pub open spec fn clause_matches(a: SynClause, b: SynClause) -> bool {
    &&& a.var@ == b.var@
    &&& a.set@ == b.set@
}

pub open spec fn op_matches(a: SynOpDecl, b: SynOpDecl) -> bool {
    &&& a.op@ == b.op@
    &&& a.value@ == b.value@
}

pub open spec fn rule_matches(a: SynRule, b: SynRule) -> bool {
    &&& a.clauses@.len() == b.clauses@.len()
    &&& forall|i: int|
        0 <= i < a.clauses@.len() ==> clause_matches(#[trigger] a.clauses@[i], b.clauses@[i])
    &&& a.connectives@ == b.connectives@
    &&& clause_matches(a.consequent, b.consequent)
}

/// The value of the first `METHOD` declaration among the first `n`
/// operator declarations, if any.
pub open spec fn method_upto(ops: Seq<SynOpDecl>, n: int) -> Option<Seq<char>>
    decreases n,
{
    if n <= 0 {
        Option::None
    } else if method_upto(ops, n - 1) is Some {
        method_upto(ops, n - 1)
    } else if ops[n - 1].op@ == "METHOD"@ {
        Option::Some(ops[n - 1].value@)
    } else {
        Option::None
    }
}

pub open spec fn opt_name_matches(a: Option<String>, b: Option<Seq<char>>) -> bool {
    match (a, b) {
        (Option::None, Option::None) => true,
        (Option::Some(x), Option::Some(y)) => x@ == y,
        _ => false,
    }
}

pub open spec fn block_matches(b: AstNode, sb: SynBlock) -> bool {
    match (b, sb) {
        (AstNode::VarInput(ds), SynBlock::VarInput(sds)) => {
            &&& ds@.len() == sds@.len()
            &&& forall|i: int| 0 <= i < ds@.len() ==> decl_matches(#[trigger] ds@[i], sds@[i])
        },
        (AstNode::VarOutput(ds), SynBlock::VarOutput(sds)) => {
            &&& ds@.len() == sds@.len()
            &&& forall|i: int| 0 <= i < ds@.len() ==> decl_matches(#[trigger] ds@[i], sds@[i])
        },
        (AstNode::Fuzzify { var, terms }, SynBlock::Fuzzify { var: svar, terms: sterms }) => {
            &&& var@ == svar@
            &&& terms@.len() == sterms@.len()
            &&& forall|i: int|
                0 <= i < terms@.len() ==> term_matches(#[trigger] terms@[i], sterms@[i])
        },
        (
            AstNode::Defuzzify { var, terms, method },
            SynBlock::Defuzzify { var: svar, terms: sterms, ops },
        ) => {
            &&& var@ == svar@
            &&& terms@.len() == sterms@.len()
            &&& forall|i: int|
                0 <= i < terms@.len() ==> term_matches(#[trigger] terms@[i], sterms@[i])
            &&& opt_name_matches(method, method_upto(ops@, ops@.len() as int))
        },
        (
            AstNode::RuleBlock { name, ops, rules },
            SynBlock::RuleBlock { name: sname, ops: sops, rules: srules },
        ) => {
            &&& name@ == sname@
            &&& ops@.len() == sops@.len()
            &&& forall|i: int| 0 <= i < ops@.len() ==> op_matches(#[trigger] ops@[i], sops@[i])
            &&& rules@.len() == srules@.len()
            &&& forall|i: int|
                0 <= i < rules@.len() ==> rule_matches(#[trigger] rules@[i], srules@[i])
        },
        _ => false,
    }
}

pub open spec fn root_matches(r: AstRoot, f: SynFcl) -> bool {
    &&& opt_name_matches(r.name, match f.name {
        Option::Some(n) => Option::Some(n@),
        Option::None => Option::None,
    })
    &&& r.blocks@.len() == f.blocks@.len()
    &&& forall|i: int|
        0 <= i < r.blocks@.len() ==> block_matches(#[trigger] r.blocks@[i], f.blocks@[i])
}

/// Every numeric literal of the term is representable.
pub open spec fn term_convertible(st: SynTerm) -> bool {
    forall|i: int|
        0 <= i < st.points@.len() ==> lit_ok((#[trigger] st.points@[i]).x@) && lit_ok(
            st.points@[i].y@,
        )
}

pub open spec fn decls_convertible(ds: Seq<SynDecl>) -> bool {
    forall|i: int|
        0 <= i < ds.len() ==> (#[trigger] ds[i]).ty@ == "REAL"@ || ds[i].ty@ == "BOOL"@
}

pub open spec fn block_convertible(b: SynBlock) -> bool {
    match b {
        SynBlock::VarInput(ds) => decls_convertible(ds@),
        SynBlock::VarOutput(ds) => decls_convertible(ds@),
        SynBlock::Fuzzify { var, terms } => forall|i: int|
            0 <= i < terms@.len() ==> term_convertible(#[trigger] terms@[i]),
        SynBlock::Defuzzify { var, terms, ops } => forall|i: int|
            0 <= i < terms@.len() ==> term_convertible(#[trigger] terms@[i]),
        SynBlock::RuleBlock { name, ops, rules } => true,
    }
}

/// Every literal and every type keyword of the tree converts.
pub open spec fn syn_convertible(f: SynFcl) -> bool {
    forall|i: int| 0 <= i < f.blocks@.len() ==> block_convertible(#[trigger] f.blocks@[i])
}

/// The block's type keywords are all known (trivially true for blocks
/// without declarations).
pub open spec fn block_types_ok(b: SynBlock) -> bool {
    match b {
        SynBlock::VarInput(ds) => decls_convertible(ds@),
        SynBlock::VarOutput(ds) => decls_convertible(ds@),
        _ => true,
    }
}

/// The block's numeric literals are all representable (trivially true
/// for blocks without terms).
pub open spec fn block_lits_ok(b: SynBlock) -> bool {
    match b {
        SynBlock::Fuzzify { var, terms } => forall|i: int|
            0 <= i < terms@.len() ==> term_convertible(#[trigger] terms@[i]),
        SynBlock::Defuzzify { var, terms, ops } => forall|i: int|
            0 <= i < terms@.len() ==> term_convertible(#[trigger] terms@[i]),
        _ => true,
    }
}

pub open spec fn all_types_ok(f: SynFcl) -> bool {
    forall|i: int| 0 <= i < f.blocks@.len() ==> block_types_ok(#[trigger] f.blocks@[i])
}

pub open spec fn all_lits_ok(f: SynFcl) -> bool {
    forall|i: int| 0 <= i < f.blocks@.len() ==> block_lits_ok(#[trigger] f.blocks@[i])
}

fn copy_clause(c: &SynClause) -> (r: SynClause)
    ensures
        clause_matches(r, *c),
{
    SynClause { var: c.var.clone(), set: c.set.clone() }
}

fn copy_rule(r: &SynRule) -> (out: SynRule)
    ensures
        rule_matches(out, *r),
        crate::fuzzy_logic::control_language::syn_rule_wf(*r)
            ==> crate::fuzzy_logic::control_language::syn_rule_wf(out),
{
    let mut clauses: Vec<SynClause> = Vec::new();
    let n = r.clauses.len();
    let mut i: usize = 0;
    while i < n
        invariant
            n == r.clauses@.len(),
            0 <= i <= n,
            clauses@.len() == i,
            forall|k: int|
                0 <= k < i ==> clause_matches(#[trigger] clauses@[k], r.clauses@[k]),
        decreases n - i,
    {
        let c = copy_clause(&r.clauses[i]);
        clauses.push(c);
        i = i + 1;
    }
    let mut connectives: Vec<Connective> = Vec::new();
    let m = r.connectives.len();
    let mut j: usize = 0;
    while j < m
        invariant
            m == r.connectives@.len(),
            0 <= j <= m,
            connectives@ =~= r.connectives@.take(j as int),
        decreases m - j,
    {
        let c = r.connectives[j];
        connectives.push(c);
        j = j + 1;
    }
    proof {
        assert(connectives@ =~= r.connectives@);
    }
    let consequent = copy_clause(&r.consequent);
    SynRule { clauses, connectives, consequent }
}

fn convert_decls(ds: &Vec<SynDecl>) -> (r: Result<Vec<AstDecl>, SemanticError>)
    ensures
        r is Ok ==> r->Ok_0@.len() == ds@.len() && forall|i: int|
            0 <= i < ds@.len() ==> decl_matches(#[trigger] r->Ok_0@[i], ds@[i]),
        (r is Ok) <==> decls_convertible(ds@),
        r is Err ==> r->Err_0 is UnknownTypeKeyword,
{
    let mut out: Vec<AstDecl> = Vec::new();
    let n = ds.len();
    let mut i: usize = 0;
    while i < n
        invariant
            n == ds@.len(),
            0 <= i <= n,
            out@.len() == i,
            forall|k: int| 0 <= k < i ==> decl_matches(#[trigger] out@[k], ds@[k]),
            forall|k: int|
                0 <= k < i ==> (#[trigger] ds@[k]).ty@ == "REAL"@ || ds@[k].ty@ == "BOOL"@,
        decreases n - i,
    {
        let d = &ds[i];
        let ty = if str_eq(d.ty.as_str(), "REAL") {
            VarType::Number
        } else if str_eq(d.ty.as_str(), "BOOL") {
            VarType::Boolean
        } else {
            proof {
                assert(!decls_convertible(ds@));
            }
            return Result::Err(SemanticError::UnknownTypeKeyword(d.ty.clone()));
        };
        out.push(AstDecl { name: d.name.clone(), ty });
        i = i + 1;
    }
    Result::Ok(out)
}

fn convert_term(st: &SynTerm) -> (r: Result<AstTerm, SemanticError>)
    requires
        syn_term_wf(*st),
    ensures
        r is Ok ==> term_matches(r->Ok_0, *st) && ast_term_wf(r->Ok_0),
        (r is Ok) <==> term_convertible(*st),
        r is Err ==> r->Err_0 is BadNumberLiteral,
{
    let mut envelope: Vec<Point> = Vec::new();
    let n = st.points.len();
    let mut i: usize = 0;
    while i < n
        invariant
            syn_term_wf(*st),
            n == st.points@.len(),
            0 <= i <= n,
            envelope@.len() == i,
            forall|k: int|
                0 <= k < i ==> point_matches(#[trigger] envelope@[k], st.points@[k]),
            forall|k: int|
                0 <= k < i ==> -LIT_MAG_MAX <= (#[trigger] envelope@[k]).x <= LIT_MAG_MAX
                    && -LIT_MAG_MAX <= envelope@[k].y <= LIT_MAG_MAX,
        decreases n - i,
    {
        let p = &st.points[i];
        assert(syn_point_wf(st.points@[i as int]));
        let x = match parse_scaled_literal(p.x.as_str()) {
            Ok(v) => v,
            Err(e) => {
                proof {
                    assert(!term_convertible(*st));
                }
                return Result::Err(e);
            },
        };
        let y = match parse_scaled_literal(p.y.as_str()) {
            Ok(v) => v,
            Err(e) => {
                proof {
                    assert(!term_convertible(*st));
                }
                return Result::Err(e);
            },
        };
        envelope.push(Point { x, y });
        i = i + 1;
    }
    proof {
        assert forall|k: int|
            0 <= k < st.points@.len() implies lit_ok((#[trigger] st.points@[k]).x@) && lit_ok(
            st.points@[k].y@,
        ) by {
            assert(point_matches(envelope@[k], st.points@[k]));
        }
    }
    Result::Ok(AstTerm { name: st.name.clone(), envelope })
}

fn convert_terms(ts: &Vec<SynTerm>) -> (r: Result<Vec<AstTerm>, SemanticError>)
    requires
        forall|i: int| 0 <= i < ts@.len() ==> syn_term_wf(#[trigger] ts@[i]),
    ensures
        r is Ok ==> r->Ok_0@.len() == ts@.len() && forall|i: int|
            0 <= i < ts@.len() ==> term_matches(#[trigger] r->Ok_0@[i], ts@[i]) && ast_term_wf(
                r->Ok_0@[i],
            ),
        (r is Ok) <==> (forall|i: int|
            0 <= i < ts@.len() ==> term_convertible(#[trigger] ts@[i])),
        r is Err ==> r->Err_0 is BadNumberLiteral,
{
    let mut out: Vec<AstTerm> = Vec::new();
    let n = ts.len();
    let mut i: usize = 0;
    while i < n
        invariant
            forall|k: int| 0 <= k < ts@.len() ==> syn_term_wf(#[trigger] ts@[k]),
            n == ts@.len(),
            0 <= i <= n,
            out@.len() == i,
            forall|k: int|
                0 <= k < i ==> term_matches(#[trigger] out@[k], ts@[k]) && ast_term_wf(out@[k]),
            forall|k: int| 0 <= k < i ==> term_convertible(#[trigger] ts@[k]),
        decreases n - i,
    {
        let t = match convert_term(&ts[i]) {
            Ok(t) => t,
            Err(e) => {
                return Result::Err(e);
            },
        };
        out.push(t);
        i = i + 1;
    }
    Result::Ok(out)
}

fn find_method(ops: &Vec<SynOpDecl>) -> (r: Option<String>)
    ensures
        opt_name_matches(r, method_upto(ops@, ops@.len() as int)),
{
    let mut m: Option<String> = Option::None;
    let n = ops.len();
    let mut i: usize = 0;
    while i < n
        invariant
            n == ops@.len(),
            0 <= i <= n,
            opt_name_matches(m, method_upto(ops@, i as int)),
        decreases n - i,
    {
        if m.is_none() {
            if str_eq(ops[i].op.as_str(), "METHOD") {
                m = Option::Some(ops[i].value.clone());
            }
        }
        i = i + 1;
    }
    m
}

fn convert_block(b: &SynBlock) -> (r: Result<AstNode, SemanticError>)
    requires
        syn_block_wf(*b),
    ensures
        r is Ok ==> block_matches(r->Ok_0, *b) && ast_block_wf(r->Ok_0),
        (r is Ok) <==> block_convertible(*b),
        r is Err ==> r->Err_0 is BadNumberLiteral || r->Err_0 is UnknownTypeKeyword,
        r matches Err(SemanticError::UnknownTypeKeyword(_)) ==> !block_types_ok(*b),
        r matches Err(SemanticError::BadNumberLiteral(_)) ==> !block_lits_ok(*b),
{
    match b {
        SynBlock::VarInput(ds) => {
            let out = match convert_decls(ds) {
                Ok(o) => o,
                Err(e) => {
                    return Result::Err(e);
                },
            };
            Result::Ok(AstNode::VarInput(out))
        },
        SynBlock::VarOutput(ds) => {
            let out = match convert_decls(ds) {
                Ok(o) => o,
                Err(e) => {
                    return Result::Err(e);
                },
            };
            Result::Ok(AstNode::VarOutput(out))
        },
        SynBlock::Fuzzify { var, terms } => {
            let out = match convert_terms(terms) {
                Ok(o) => o,
                Err(e) => {
                    return Result::Err(e);
                },
            };
            Result::Ok(AstNode::Fuzzify { var: var.clone(), terms: out })
        },
        SynBlock::Defuzzify { var, terms, ops } => {
            let out = match convert_terms(terms) {
                Ok(o) => o,
                Err(e) => {
                    return Result::Err(e);
                },
            };
            let method = find_method(ops);
            Result::Ok(AstNode::Defuzzify { var: var.clone(), terms: out, method })
        },
        SynBlock::RuleBlock { name, ops, rules } => {
            let mut out_ops: Vec<SynOpDecl> = Vec::new();
            let nop = ops.len();
            let mut q: usize = 0;
            while q < nop
                invariant
                    nop == ops@.len(),
                    0 <= q <= nop,
                    out_ops@.len() == q,
                    forall|a: int|
                        0 <= a < q ==> op_matches(#[trigger] out_ops@[a], ops@[a]),
                decreases nop - q,
            {
                let o = SynOpDecl { op: ops[q].op.clone(), value: ops[q].value.clone() };
                out_ops.push(o);
                q = q + 1;
            }
            let mut out: Vec<SynRule> = Vec::new();
            let n = rules.len();
            let mut i: usize = 0;
            while i < n
                invariant
                    forall|k: int|
                        0 <= k < rules@.len()
                            ==> crate::fuzzy_logic::control_language::syn_rule_wf(
                            #[trigger] rules@[k],
                        ),
                    n == rules@.len(),
                    0 <= i <= n,
                    out@.len() == i,
                    forall|k: int|
                        0 <= k < i ==> rule_matches(#[trigger] out@[k], rules@[k])
                            && crate::fuzzy_logic::control_language::syn_rule_wf(out@[k]),
                decreases n - i,
            {
                let ru = copy_rule(&rules[i]);
                out.push(ru);
                i = i + 1;
            }
            Result::Ok(AstNode::RuleBlock { name: name.clone(), ops: out_ops, rules: out })
        },
    }
}

/// Build the typed AST from a syntax tree: convert every literal to a
/// fixed-point value and every type keyword to a `VarType`. Succeeds
/// exactly when every literal is representable and every type keyword
/// is known; the result then mirrors the tree node for node.
pub fn generate_ast(tree: &SynFcl) -> (r: Result<AstRoot, SemanticError>)
    requires
        syn_fcl_wf(*tree),
    ensures
        r is Ok ==> root_matches(r->Ok_0, *tree) && ast_root_wf(r->Ok_0),
        (r is Ok) <==> syn_convertible(*tree),
        r is Err ==> r->Err_0 is BadNumberLiteral || r->Err_0 is UnknownTypeKeyword,
        !syn_convertible(*tree) && all_types_ok(*tree) ==> r matches Err(
            SemanticError::BadNumberLiteral(_),
        ),
        !syn_convertible(*tree) && all_lits_ok(*tree) ==> r matches Err(
            SemanticError::UnknownTypeKeyword(_),
        ),
{
    let name: Option<String> = match &tree.name {
        Some(n) => Option::Some(n.clone()),
        None => Option::None,
    };
    let mut blocks: Vec<AstNode> = Vec::new();
    let nb = tree.blocks.len();
    let mut k: usize = 0;
    while k < nb
        invariant
            syn_fcl_wf(*tree),
            nb == tree.blocks@.len(),
            0 <= k <= nb,
            blocks@.len() == k,
            forall|i: int|
                0 <= i < k ==> block_matches(#[trigger] blocks@[i], tree.blocks@[i])
                    && ast_block_wf(blocks@[i]),
            forall|i: int| 0 <= i < k ==> block_convertible(#[trigger] tree.blocks@[i]),
        decreases nb - k,
    {
        assert(syn_block_wf(tree.blocks@[k as int]));
        let ab = match convert_block(&tree.blocks[k]) {
            Ok(a) => a,
            Err(e) => {
                proof {
                    assert(!block_convertible(tree.blocks@[k as int]));
                    assert(!syn_convertible(*tree));
                    if all_types_ok(*tree) {
                        assert(block_types_ok(tree.blocks@[k as int]));
                    }
                    if all_lits_ok(*tree) {
                        assert(block_lits_ok(tree.blocks@[k as int]));
                    }
                }
                return Result::Err(e);
            },
        };
        blocks.push(ab);
        k = k + 1;
    }
    Result::Ok(AstRoot { name, blocks })
}

} // verus!
