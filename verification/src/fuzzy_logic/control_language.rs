//! Parser for the Fuzzy Control Language (FCL) surface syntax.
//!
//! The grammar, written as productions over the token stream:
//!
//! ```text
//! fcl            = function_block | block* ;
//! function_block = "FUNCTION_BLOCK" identifier block* "END_FUNCTION_BLOCK" ;
//! block          = var_input | var_output | fuzzify | defuzzify | ruleblock ;
//! var_input      = "VAR_INPUT" declaration* "END_VAR" ;
//! var_output     = "VAR_OUTPUT" declaration* "END_VAR" ;
//! declaration    = identifier ":" identifier ";" ;
//! fuzzify        = "FUZZIFY" identifier term* "END_FUZZIFY" ;
//! defuzzify      = "DEFUZZIFY" identifier term* op_decl* "END_DEFUZZIFY" ;
//! term           = "TERM" identifier ":=" point+ ";" ;
//! point          = "(" number "," number ")" ;
//! ruleblock      = "RULEBLOCK" identifier operators rule* "END_RULEBLOCK" ;
//! operators      = op_decl* ;
//! op_decl        = identifier ":" identifier ";" ;
//! rule           = "RULE" number ":" "IF" antecedent "THEN" consequent ";" ;
//! antecedent     = clause (("AND" | "OR") clause)* ;
//! consequent     = clause ;
//! clause         = identifier "IS" identifier ;
//! ```
//!
//! Parsing is purely structural: no names are resolved and no numeric
//! literal is converted here. It never partially succeeds: each entry
//! point returns the parsed tree or a `SyntaxError` with the offending
//! line and column (line 0 marks an unexpected end of input).
use vstd::prelude::*;

verus! {

use vstd::string::StrSliceExecFns;
use crate::fuzzy_logic::errors::SyntaxError;
use crate::fuzzy_logic::lexer::{
    TokSpec, Token, TokenKind, abst, ident_shape, number_shape, sl_ok, sl_tokens, token_wf,
    tokenize, tokens_wf,
};

/// One `(x, y)` breakpoint of a term envelope, as literal text.
#[derive(Debug)]
pub struct SynPoint {
    pub x: String,
    pub y: String,
}

/// A `TERM name := points ;` definition.
#[derive(Debug)]
pub struct SynTerm {
    pub name: String,
    pub points: Vec<SynPoint>,
}

/// A `name : type ;` variable declaration.
#[derive(Debug)]
pub struct SynDecl {
    pub name: String,
    pub ty: String,
}

/// A `variable IS set` clause.
#[derive(Debug)]
pub struct SynClause {
    pub var: String,
    pub set: String,
}

/// How two antecedent clauses are joined.
#[derive(Clone, Copy, Debug, PartialEq, Eq, Structural)]
pub enum Connective {
    And,
    Or,
}

/// A `RULE n : IF ... THEN ... ;` statement. `connectives[i]` joins
/// `clauses[i]` and `clauses[i + 1]`.
#[derive(Debug)]
pub struct SynRule {
    pub clauses: Vec<SynClause>,
    pub connectives: Vec<Connective>,
    pub consequent: SynClause,
}

/// An `op : value ;` operator declaration (`AND: MIN;`, `ACCU: MAX;`,
/// `METHOD: COG;`).
#[derive(Debug)]
pub struct SynOpDecl {
    pub op: String,
    pub value: String,
}

/// One top-level block of a function block.
#[derive(Debug)]
pub enum SynBlock {
    VarInput(Vec<SynDecl>),
    VarOutput(Vec<SynDecl>),
    Fuzzify { var: String, terms: Vec<SynTerm> },
    Defuzzify { var: String, terms: Vec<SynTerm>, ops: Vec<SynOpDecl> },
    RuleBlock { name: String, ops: Vec<SynOpDecl>, rules: Vec<SynRule> },
}

/// A whole parsed source unit: the function block's name, if the unit
/// was wrapped in one, and its blocks in source order.
#[derive(Debug)]
pub struct SynFcl {
    pub name: Option<String>,
    pub blocks: Vec<SynBlock>,
}

pub open spec fn syn_point_wf(p: SynPoint) -> bool {
    &&& number_shape(p.x@)
    &&& number_shape(p.y@)
}

pub open spec fn syn_term_wf(t: SynTerm) -> bool {
    &&& ident_shape(t.name@)
    &&& t.points@.len() >= 1
    &&& forall|i: int| 0 <= i < t.points@.len() ==> syn_point_wf(#[trigger] t.points@[i])
}

pub open spec fn syn_decl_wf(d: SynDecl) -> bool {
    &&& ident_shape(d.name@)
    &&& ident_shape(d.ty@)
}

pub open spec fn syn_clause_wf(c: SynClause) -> bool {
    &&& ident_shape(c.var@)
    &&& ident_shape(c.set@)
}

pub open spec fn syn_rule_wf(r: SynRule) -> bool {
    &&& r.clauses@.len() >= 1
    &&& r.connectives@.len() + 1 == r.clauses@.len()
    &&& forall|i: int| 0 <= i < r.clauses@.len() ==> syn_clause_wf(#[trigger] r.clauses@[i])
    &&& syn_clause_wf(r.consequent)
}

pub open spec fn syn_op_decl_wf(o: SynOpDecl) -> bool {
    &&& ident_shape(o.op@)
    &&& ident_shape(o.value@)
}

pub open spec fn syn_block_wf(b: SynBlock) -> bool {
    match b {
        SynBlock::VarInput(ds) => forall|i: int|
            0 <= i < ds@.len() ==> syn_decl_wf(#[trigger] ds@[i]),
        SynBlock::VarOutput(ds) => forall|i: int|
            0 <= i < ds@.len() ==> syn_decl_wf(#[trigger] ds@[i]),
        SynBlock::Fuzzify { var, terms } => {
            &&& ident_shape(var@)
            &&& forall|i: int| 0 <= i < terms@.len() ==> syn_term_wf(#[trigger] terms@[i])
        },
        SynBlock::Defuzzify { var, terms, ops } => {
            &&& ident_shape(var@)
            &&& forall|i: int| 0 <= i < terms@.len() ==> syn_term_wf(#[trigger] terms@[i])
            &&& forall|i: int| 0 <= i < ops@.len() ==> syn_op_decl_wf(#[trigger] ops@[i])
        },
        SynBlock::RuleBlock { name, ops, rules } => {
            &&& ident_shape(name@)
            &&& forall|i: int| 0 <= i < ops@.len() ==> syn_op_decl_wf(#[trigger] ops@[i])
            &&& forall|i: int| 0 <= i < rules@.len() ==> syn_rule_wf(#[trigger] rules@[i])
        },
    }
}

pub open spec fn syn_fcl_wf(f: SynFcl) -> bool {
    &&& match f.name {
        Some(n) => ident_shape(n@),
        None => true,
    }
    &&& forall|i: int| 0 <= i < f.blocks@.len() ==> syn_block_wf(#[trigger] f.blocks@[i])
}

/// The grammar as a mathematical object: for each production `X`,
/// `sp_X(toks, i)` is the position just after one `X` read at `i`, or
/// `None` when the tokens do not match the production. The parser
/// below is proved to succeed exactly when the production matches,
/// ending at exactly this position.
pub open spec fn tok_kind(toks: Seq<TokSpec>, i: int, k: TokenKind) -> bool {
    0 <= i < toks.len() && toks[i].kind == k
}

pub open spec fn tok_kw(toks: Seq<TokSpec>, i: int, kw: Seq<char>) -> bool {
    0 <= i < toks.len() && toks[i].kind == TokenKind::Ident && toks[i].text == kw
}

/// `identifier ":" identifier ";"` (a variable or operator
/// declaration).
pub open spec fn sp_colon_decl(toks: Seq<TokSpec>, i: int) -> Option<int> {
    if tok_kind(toks, i, TokenKind::Ident) && tok_kind(toks, i + 1, TokenKind::Colon) && tok_kind(
        toks,
        i + 2,
        TokenKind::Ident,
    ) && tok_kind(toks, i + 3, TokenKind::Semicolon) {
        Option::Some(i + 4)
    } else {
        Option::None
    }
}

/// `"(" number "," number ")"`
pub open spec fn sp_point(toks: Seq<TokSpec>, i: int) -> Option<int> {
    if tok_kind(toks, i, TokenKind::LParen) && tok_kind(toks, i + 1, TokenKind::Number)
        && tok_kind(toks, i + 2, TokenKind::Comma) && tok_kind(toks, i + 3, TokenKind::Number)
        && tok_kind(toks, i + 4, TokenKind::RParen) {
        Option::Some(i + 5)
    } else {
        Option::None
    }
}

/// `identifier "IS" identifier`
pub open spec fn sp_clause(toks: Seq<TokSpec>, i: int) -> Option<int> {
    if tok_kind(toks, i, TokenKind::Ident) && tok_kw(toks, i + 1, "IS"@) && tok_kind(
        toks,
        i + 2,
        TokenKind::Ident,
    ) {
        Option::Some(i + 3)
    } else {
        Option::None
    }
}

/// `point+` (what follows a point already read: more points until the
/// next token is no `(`).
pub open spec fn sp_points(toks: Seq<TokSpec>, i: int) -> Option<int>
    decreases toks.len() - i,
{
    match sp_point(toks, i) {
        Option::Some(j) => {
            if tok_kind(toks, j, TokenKind::LParen) {
                sp_points(toks, j)
            } else {
                Option::Some(j)
            }
        },
        Option::None => Option::None,
    }
}

/// `"TERM" identifier ":=" point+ ";"`
pub open spec fn sp_term(toks: Seq<TokSpec>, i: int) -> Option<int> {
    if tok_kw(toks, i, "TERM"@) && tok_kind(toks, i + 1, TokenKind::Ident) && tok_kind(
        toks,
        i + 2,
        TokenKind::Assign,
    ) {
        match sp_points(toks, i + 3) {
            Option::Some(j) => {
                if tok_kind(toks, j, TokenKind::Semicolon) {
                    Option::Some(j + 1)
                } else {
                    Option::None
                }
            },
            Option::None => Option::None,
        }
    } else {
        Option::None
    }
}

pub proof fn lemma_sp_points_advance(toks: Seq<TokSpec>, i: int)
    ensures
        sp_points(toks, i) matches Option::Some(j) ==> i < j <= toks.len(),
    decreases toks.len() - i,
{
    if sp_point(toks, i) is Some {
        let j = i + 5;
        if tok_kind(toks, j, TokenKind::LParen) {
            lemma_sp_points_advance(toks, j);
        }
    }
}

pub proof fn lemma_sp_term_advance(toks: Seq<TokSpec>, i: int)
    ensures
        sp_term(toks, i) matches Option::Some(j) ==> i < j <= toks.len(),
{
    lemma_sp_points_advance(toks, i + 3);
}

/// `term*` (terms while the next token is the `TERM` keyword).
pub open spec fn sp_terms(toks: Seq<TokSpec>, i: int) -> Option<int>
    decreases toks.len() - i,
    when true
    via sp_terms_decreases
{
    if tok_kw(toks, i, "TERM"@) {
        match sp_term(toks, i) {
            Option::Some(j) => sp_terms(toks, j),
            Option::None => Option::None,
        }
    } else {
        Option::Some(i)
    }
}

#[via_fn]
proof fn sp_terms_decreases(toks: Seq<TokSpec>, i: int) {
    lemma_sp_term_advance(toks, i);
}

pub proof fn lemma_sp_terms_advance(toks: Seq<TokSpec>, i: int)
    ensures
        sp_terms(toks, i) matches Option::Some(j) ==> i <= j,
    decreases toks.len() - i,
{
    if tok_kw(toks, i, "TERM"@) {
        lemma_sp_term_advance(toks, i);
        match sp_term(toks, i) {
            Option::Some(j) => {
                lemma_sp_terms_advance(toks, j);
            },
            Option::None => {},
        }
    }
}

/// `(("AND" | "OR") clause)*`
pub open spec fn sp_conns(toks: Seq<TokSpec>, i: int) -> Option<int>
    decreases toks.len() - i,
{
    if tok_kw(toks, i, "AND"@) || tok_kw(toks, i, "OR"@) {
        match sp_clause(toks, i + 1) {
            Option::Some(j) => sp_conns(toks, j),
            Option::None => Option::None,
        }
    } else {
        Option::Some(i)
    }
}

pub proof fn lemma_sp_conns_advance(toks: Seq<TokSpec>, i: int)
    ensures
        sp_conns(toks, i) matches Option::Some(j) ==> i <= j,
    decreases toks.len() - i,
{
    if tok_kw(toks, i, "AND"@) || tok_kw(toks, i, "OR"@) {
        match sp_clause(toks, i + 1) {
            Option::Some(j) => {
                lemma_sp_conns_advance(toks, j);
            },
            Option::None => {},
        }
    }
}

/// `clause (("AND" | "OR") clause)*`
pub open spec fn sp_antecedent(toks: Seq<TokSpec>, i: int) -> Option<int> {
    match sp_clause(toks, i) {
        Option::Some(j) => sp_conns(toks, j),
        Option::None => Option::None,
    }
}

/// `"RULE" number ":" "IF" antecedent "THEN" consequent ";"`
pub open spec fn sp_rule(toks: Seq<TokSpec>, i: int) -> Option<int> {
    if tok_kw(toks, i, "RULE"@) && tok_kind(toks, i + 1, TokenKind::Number) && tok_kind(
        toks,
        i + 2,
        TokenKind::Colon,
    ) && tok_kw(toks, i + 3, "IF"@) {
        match sp_antecedent(toks, i + 4) {
            Option::Some(j) => {
                if tok_kw(toks, j, "THEN"@) {
                    match sp_clause(toks, j + 1) {
                        Option::Some(k) => {
                            if tok_kind(toks, k, TokenKind::Semicolon) {
                                Option::Some(k + 1)
                            } else {
                                Option::None
                            }
                        },
                        Option::None => Option::None,
                    }
                } else {
                    Option::None
                }
            },
            Option::None => Option::None,
        }
    } else {
        Option::None
    }
}

pub proof fn lemma_sp_rule_advance(toks: Seq<TokSpec>, i: int)
    ensures
        sp_rule(toks, i) matches Option::Some(j) ==> i < j <= toks.len(),
{
    lemma_sp_conns_advance(toks, i + 4 + 3);
}

/// `rule*` (rules while the next token is the `RULE` keyword).
pub open spec fn sp_rules(toks: Seq<TokSpec>, i: int) -> Option<int>
    decreases toks.len() - i,
    when true
    via sp_rules_decreases
{
    if tok_kw(toks, i, "RULE"@) {
        match sp_rule(toks, i) {
            Option::Some(j) => sp_rules(toks, j),
            Option::None => Option::None,
        }
    } else {
        Option::Some(i)
    }
}

#[via_fn]
proof fn sp_rules_decreases(toks: Seq<TokSpec>, i: int) {
    lemma_sp_rule_advance(toks, i);
}

pub proof fn lemma_sp_rules_advance(toks: Seq<TokSpec>, i: int)
    ensures
        sp_rules(toks, i) matches Option::Some(j) ==> i <= j,
    decreases toks.len() - i,
{
    if tok_kw(toks, i, "RULE"@) {
        lemma_sp_rule_advance(toks, i);
        match sp_rule(toks, i) {
            Option::Some(j) => {
                lemma_sp_rules_advance(toks, j);
            },
            Option::None => {},
        }
    }
}

/// `declaration* "END_VAR"`
pub open spec fn sp_decl_list(toks: Seq<TokSpec>, i: int) -> Option<int>
    decreases toks.len() - i,
{
    if tok_kw(toks, i, "END_VAR"@) {
        Option::Some(i + 1)
    } else {
        match sp_colon_decl(toks, i) {
            Option::Some(j) => sp_decl_list(toks, j),
            Option::None => Option::None,
        }
    }
}

pub proof fn lemma_sp_decl_list_advance(toks: Seq<TokSpec>, i: int)
    ensures
        sp_decl_list(toks, i) matches Option::Some(j) ==> i < j <= toks.len(),
    decreases toks.len() - i,
{
    if !tok_kw(toks, i, "END_VAR"@) {
        match sp_colon_decl(toks, i) {
            Option::Some(j) => {
                lemma_sp_decl_list_advance(toks, j);
            },
            Option::None => {},
        }
    }
}

/// `op_decl*` (operator declarations while an identifier is directly
/// followed by a colon).
pub open spec fn sp_op_list(toks: Seq<TokSpec>, i: int) -> Option<int>
    decreases toks.len() - i,
{
    if tok_kind(toks, i, TokenKind::Ident) && tok_kind(toks, i + 1, TokenKind::Colon) {
        match sp_colon_decl(toks, i) {
            Option::Some(j) => sp_op_list(toks, j),
            Option::None => Option::None,
        }
    } else {
        Option::Some(i)
    }
}

pub proof fn lemma_sp_op_list_advance(toks: Seq<TokSpec>, i: int)
    ensures
        sp_op_list(toks, i) matches Option::Some(j) ==> i <= j,
    decreases toks.len() - i,
{
    if tok_kind(toks, i, TokenKind::Ident) && tok_kind(toks, i + 1, TokenKind::Colon) {
        match sp_colon_decl(toks, i) {
            Option::Some(j) => {
                lemma_sp_op_list_advance(toks, j);
            },
            Option::None => {},
        }
    }
}

/// The operator declarations of a rule block (stopping at the `RULE`
/// keyword).
pub open spec fn sp_rb_ops(toks: Seq<TokSpec>, i: int) -> Option<int>
    decreases toks.len() - i,
{
    if !tok_kw(toks, i, "RULE"@) && tok_kind(toks, i, TokenKind::Ident) && tok_kind(
        toks,
        i + 1,
        TokenKind::Colon,
    ) {
        match sp_colon_decl(toks, i) {
            Option::Some(j) => sp_rb_ops(toks, j),
            Option::None => Option::None,
        }
    } else {
        Option::Some(i)
    }
}

pub proof fn lemma_sp_rb_ops_advance(toks: Seq<TokSpec>, i: int)
    ensures
        sp_rb_ops(toks, i) matches Option::Some(j) ==> i <= j,
    decreases toks.len() - i,
{
    if !tok_kw(toks, i, "RULE"@) && tok_kind(toks, i, TokenKind::Ident) && tok_kind(
        toks,
        i + 1,
        TokenKind::Colon,
    ) {
        match sp_colon_decl(toks, i) {
            Option::Some(j) => {
                lemma_sp_rb_ops_advance(toks, j);
            },
            Option::None => {},
        }
    }
}

/// `"FUZZIFY" identifier term* "END_FUZZIFY"`
pub open spec fn sp_fuzzify(toks: Seq<TokSpec>, i: int) -> Option<int> {
    if tok_kw(toks, i, "FUZZIFY"@) && tok_kind(toks, i + 1, TokenKind::Ident) {
        match sp_terms(toks, i + 2) {
            Option::Some(j) => {
                if tok_kw(toks, j, "END_FUZZIFY"@) {
                    Option::Some(j + 1)
                } else {
                    Option::None
                }
            },
            Option::None => Option::None,
        }
    } else {
        Option::None
    }
}

/// `"DEFUZZIFY" identifier term* op_decl* "END_DEFUZZIFY"`
pub open spec fn sp_defuzzify(toks: Seq<TokSpec>, i: int) -> Option<int> {
    if tok_kw(toks, i, "DEFUZZIFY"@) && tok_kind(toks, i + 1, TokenKind::Ident) {
        match sp_terms(toks, i + 2) {
            Option::Some(j) => {
                match sp_op_list(toks, j) {
                    Option::Some(k) => {
                        if tok_kw(toks, k, "END_DEFUZZIFY"@) {
                            Option::Some(k + 1)
                        } else {
                            Option::None
                        }
                    },
                    Option::None => Option::None,
                }
            },
            Option::None => Option::None,
        }
    } else {
        Option::None
    }
}

/// `"RULEBLOCK" identifier operators rule* "END_RULEBLOCK"`
pub open spec fn sp_ruleblock(toks: Seq<TokSpec>, i: int) -> Option<int> {
    if tok_kw(toks, i, "RULEBLOCK"@) && tok_kind(toks, i + 1, TokenKind::Ident) {
        match sp_rb_ops(toks, i + 2) {
            Option::Some(j) => {
                match sp_rules(toks, j) {
                    Option::Some(k) => {
                        if tok_kw(toks, k, "END_RULEBLOCK"@) {
                            Option::Some(k + 1)
                        } else {
                            Option::None
                        }
                    },
                    Option::None => Option::None,
                }
            },
            Option::None => Option::None,
        }
    } else {
        Option::None
    }
}

/// `block = var_input | var_output | fuzzify | defuzzify | ruleblock`
pub open spec fn sp_block(toks: Seq<TokSpec>, i: int) -> Option<int> {
    if tok_kw(toks, i, "VAR_INPUT"@) {
        sp_decl_list(toks, i + 1)
    } else if tok_kw(toks, i, "VAR_OUTPUT"@) {
        sp_decl_list(toks, i + 1)
    } else if tok_kw(toks, i, "FUZZIFY"@) {
        sp_fuzzify(toks, i)
    } else if tok_kw(toks, i, "DEFUZZIFY"@) {
        sp_defuzzify(toks, i)
    } else if tok_kw(toks, i, "RULEBLOCK"@) {
        sp_ruleblock(toks, i)
    } else {
        Option::None
    }
}

pub proof fn lemma_sp_block_advance(toks: Seq<TokSpec>, i: int)
    ensures
        sp_block(toks, i) matches Option::Some(j) ==> i < j <= toks.len(),
{
    if tok_kw(toks, i, "VAR_INPUT"@) || tok_kw(toks, i, "VAR_OUTPUT"@) {
        lemma_sp_decl_list_advance(toks, i + 1);
    } else if tok_kw(toks, i, "FUZZIFY"@) {
        lemma_sp_terms_advance(toks, i + 2);
    } else if tok_kw(toks, i, "DEFUZZIFY"@) {
        lemma_sp_terms_advance(toks, i + 2);
        match sp_terms(toks, i + 2) {
            Option::Some(j) => {
                lemma_sp_op_list_advance(toks, j);
            },
            Option::None => {},
        }
    } else if tok_kw(toks, i, "RULEBLOCK"@) {
        lemma_sp_rb_ops_advance(toks, i + 2);
        match sp_rb_ops(toks, i + 2) {
            Option::Some(j) => {
                lemma_sp_rules_advance(toks, j);
            },
            Option::None => {},
        }
    }
}

/// `block* "END_FUNCTION_BLOCK"`
pub open spec fn sp_blocks_end(toks: Seq<TokSpec>, i: int) -> Option<int>
    decreases toks.len() - i,
    when true
    via sp_blocks_end_decreases
{
    if tok_kw(toks, i, "END_FUNCTION_BLOCK"@) {
        Option::Some(i + 1)
    } else {
        match sp_block(toks, i) {
            Option::Some(j) => sp_blocks_end(toks, j),
            Option::None => Option::None,
        }
    }
}

#[via_fn]
proof fn sp_blocks_end_decreases(toks: Seq<TokSpec>, i: int) {
    lemma_sp_block_advance(toks, i);
}

/// `block*`, running to the end of the input.
pub open spec fn sp_blocks_eof(toks: Seq<TokSpec>, i: int) -> Option<int>
    decreases toks.len() - i,
    when true
    via sp_blocks_eof_decreases
{
    if i >= toks.len() {
        Option::Some(i)
    } else {
        match sp_block(toks, i) {
            Option::Some(j) => sp_blocks_eof(toks, j),
            Option::None => Option::None,
        }
    }
}

#[via_fn]
proof fn sp_blocks_eof_decreases(toks: Seq<TokSpec>, i: int) {
    lemma_sp_block_advance(toks, i);
}

/// `fcl = function_block | block*`, consuming the whole token stream.
pub open spec fn sp_fcl(toks: Seq<TokSpec>) -> Option<int> {
    if tok_kw(toks, 0, "FUNCTION_BLOCK"@) {
        if tok_kind(toks, 1, TokenKind::Ident) {
            match sp_blocks_end(toks, 2) {
                Option::Some(j) => {
                    if j == toks.len() {
                        Option::Some(j)
                    } else {
                        Option::None
                    }
                },
                Option::None => Option::None,
            }
        } else {
            Option::None
        }
    } else {
        sp_blocks_eof(toks, 0)
    }
}

/// The content each production carries, as ghost views over the token
/// texts: for each production `X`, `sv_X(toks, i)` is the content of
/// the `X` read at `i` (meaningful where `sp_X` accepts). Together
/// with the `*_view` projections of the executable syntax tree below,
/// these pin the parser's output, not only its success, to the tokens.
pub struct DeclV {
    pub name: Seq<char>,
    pub ty: Seq<char>,
}

pub struct PointV {
    pub x: Seq<char>,
    pub y: Seq<char>,
}

pub struct TermV {
    pub name: Seq<char>,
    pub points: Seq<PointV>,
}

pub struct ClauseV {
    pub var: Seq<char>,
    pub set: Seq<char>,
}

pub struct RuleV {
    pub clauses: Seq<ClauseV>,
    pub connectives: Seq<Connective>,
    pub consequent: ClauseV,
}

pub struct OpV {
    pub op: Seq<char>,
    pub value: Seq<char>,
}

pub enum BlockV {
    VarInput(Seq<DeclV>),
    VarOutput(Seq<DeclV>),
    Fuzzify { var: Seq<char>, terms: Seq<TermV> },
    Defuzzify { var: Seq<char>, terms: Seq<TermV>, ops: Seq<OpV> },
    RuleBlock { name: Seq<char>, ops: Seq<OpV>, rules: Seq<RuleV> },
}

pub struct FclV {
    pub name: Option<Seq<char>>,
    pub blocks: Seq<BlockV>,
}

pub open spec fn decl_view(d: SynDecl) -> DeclV {
    DeclV { name: d.name@, ty: d.ty@ }
}

pub open spec fn point_view(p: SynPoint) -> PointV {
    PointV { x: p.x@, y: p.y@ }
}

pub open spec fn term_view(t: SynTerm) -> TermV {
    TermV { name: t.name@, points: t.points@.map_values(|p: SynPoint| point_view(p)) }
}

pub open spec fn clause_view(c: SynClause) -> ClauseV {
    ClauseV { var: c.var@, set: c.set@ }
}

pub open spec fn rule_view(r: SynRule) -> RuleV {
    RuleV {
        clauses: r.clauses@.map_values(|c: SynClause| clause_view(c)),
        connectives: r.connectives@,
        consequent: clause_view(r.consequent),
    }
}

pub open spec fn op_view(o: SynOpDecl) -> OpV {
    OpV { op: o.op@, value: o.value@ }
}

pub open spec fn block_view(b: SynBlock) -> BlockV {
    match b {
        SynBlock::VarInput(ds) => BlockV::VarInput(ds@.map_values(|d: SynDecl| decl_view(d))),
        SynBlock::VarOutput(ds) => BlockV::VarOutput(ds@.map_values(|d: SynDecl| decl_view(d))),
        SynBlock::Fuzzify { var, terms } => BlockV::Fuzzify {
            var: var@,
            terms: terms@.map_values(|t: SynTerm| term_view(t)),
        },
        SynBlock::Defuzzify { var, terms, ops } => BlockV::Defuzzify {
            var: var@,
            terms: terms@.map_values(|t: SynTerm| term_view(t)),
            ops: ops@.map_values(|o: SynOpDecl| op_view(o)),
        },
        SynBlock::RuleBlock { name, ops, rules } => BlockV::RuleBlock {
            name: name@,
            ops: ops@.map_values(|o: SynOpDecl| op_view(o)),
            rules: rules@.map_values(|r: SynRule| rule_view(r)),
        },
    }
}

pub open spec fn fcl_view(f: SynFcl) -> FclV {
    FclV {
        name: match f.name {
            Option::Some(n) => Option::Some(n@),
            Option::None => Option::None,
        },
        blocks: f.blocks@.map_values(|b: SynBlock| block_view(b)),
    }
}

pub open spec fn sv_decl(toks: Seq<TokSpec>, i: int) -> DeclV {
    DeclV { name: toks[i].text, ty: toks[i + 2].text }
}

pub open spec fn sv_point(toks: Seq<TokSpec>, i: int) -> PointV {
    PointV { x: toks[i + 1].text, y: toks[i + 3].text }
}

pub open spec fn sv_clause(toks: Seq<TokSpec>, i: int) -> ClauseV {
    ClauseV { var: toks[i].text, set: toks[i + 2].text }
}

pub open spec fn sv_op(toks: Seq<TokSpec>, i: int) -> OpV {
    OpV { op: toks[i].text, value: toks[i + 2].text }
}

pub open spec fn sv_points(toks: Seq<TokSpec>, i: int) -> Seq<PointV>
    decreases toks.len() - i,
{
    match sp_point(toks, i) {
        Option::Some(j) => seq![sv_point(toks, i)] + (if tok_kind(toks, j, TokenKind::LParen) {
            sv_points(toks, j)
        } else {
            Seq::empty()
        }),
        Option::None => Seq::empty(),
    }
}

pub open spec fn sv_term(toks: Seq<TokSpec>, i: int) -> TermV {
    TermV { name: toks[i + 1].text, points: sv_points(toks, i + 3) }
}

pub open spec fn sv_terms(toks: Seq<TokSpec>, i: int) -> Seq<TermV>
    decreases toks.len() - i,
    when true
    via sv_terms_decreases
{
    if tok_kw(toks, i, "TERM"@) {
        match sp_term(toks, i) {
            Option::Some(j) => seq![sv_term(toks, i)] + sv_terms(toks, j),
            Option::None => Seq::empty(),
        }
    } else {
        Seq::empty()
    }
}

#[via_fn]
proof fn sv_terms_decreases(toks: Seq<TokSpec>, i: int) {
    lemma_sp_term_advance(toks, i);
}

pub open spec fn sv_conns_clauses(toks: Seq<TokSpec>, i: int) -> Seq<ClauseV>
    decreases toks.len() - i,
{
    if tok_kw(toks, i, "AND"@) || tok_kw(toks, i, "OR"@) {
        match sp_clause(toks, i + 1) {
            Option::Some(j) => seq![sv_clause(toks, i + 1)] + sv_conns_clauses(toks, j),
            Option::None => Seq::empty(),
        }
    } else {
        Seq::empty()
    }
}

pub open spec fn sv_conns_ops(toks: Seq<TokSpec>, i: int) -> Seq<Connective>
    decreases toks.len() - i,
{
    if tok_kw(toks, i, "AND"@) || tok_kw(toks, i, "OR"@) {
        match sp_clause(toks, i + 1) {
            Option::Some(j) => seq![
                if tok_kw(toks, i, "AND"@) {
                    Connective::And
                } else {
                    Connective::Or
                },
            ] + sv_conns_ops(toks, j),
            Option::None => Seq::empty(),
        }
    } else {
        Seq::empty()
    }
}

pub open spec fn sv_antecedent_clauses(toks: Seq<TokSpec>, i: int) -> Seq<ClauseV> {
    match sp_clause(toks, i) {
        Option::Some(j) => seq![sv_clause(toks, i)] + sv_conns_clauses(toks, j),
        Option::None => Seq::empty(),
    }
}

pub open spec fn sv_antecedent_conns(toks: Seq<TokSpec>, i: int) -> Seq<Connective> {
    match sp_clause(toks, i) {
        Option::Some(j) => sv_conns_ops(toks, j),
        Option::None => Seq::empty(),
    }
}

pub open spec fn sv_rule(toks: Seq<TokSpec>, i: int) -> RuleV {
    RuleV {
        clauses: sv_antecedent_clauses(toks, i + 4),
        connectives: sv_antecedent_conns(toks, i + 4),
        consequent: match sp_antecedent(toks, i + 4) {
            Option::Some(j) => sv_clause(toks, j + 1),
            Option::None => ClauseV { var: Seq::empty(), set: Seq::empty() },
        },
    }
}

pub open spec fn sv_rules(toks: Seq<TokSpec>, i: int) -> Seq<RuleV>
    decreases toks.len() - i,
    when true
    via sv_rules_decreases
{
    if tok_kw(toks, i, "RULE"@) {
        match sp_rule(toks, i) {
            Option::Some(j) => seq![sv_rule(toks, i)] + sv_rules(toks, j),
            Option::None => Seq::empty(),
        }
    } else {
        Seq::empty()
    }
}

#[via_fn]
proof fn sv_rules_decreases(toks: Seq<TokSpec>, i: int) {
    lemma_sp_rule_advance(toks, i);
}

pub open spec fn sv_decl_list(toks: Seq<TokSpec>, i: int) -> Seq<DeclV>
    decreases toks.len() - i,
{
    if tok_kw(toks, i, "END_VAR"@) {
        Seq::empty()
    } else {
        match sp_colon_decl(toks, i) {
            Option::Some(j) => seq![sv_decl(toks, i)] + sv_decl_list(toks, j),
            Option::None => Seq::empty(),
        }
    }
}

pub open spec fn sv_op_list(toks: Seq<TokSpec>, i: int) -> Seq<OpV>
    decreases toks.len() - i,
{
    if tok_kind(toks, i, TokenKind::Ident) && tok_kind(toks, i + 1, TokenKind::Colon) {
        match sp_colon_decl(toks, i) {
            Option::Some(j) => seq![sv_op(toks, i)] + sv_op_list(toks, j),
            Option::None => Seq::empty(),
        }
    } else {
        Seq::empty()
    }
}

pub open spec fn sv_rb_ops(toks: Seq<TokSpec>, i: int) -> Seq<OpV>
    decreases toks.len() - i,
{
    if !tok_kw(toks, i, "RULE"@) && tok_kind(toks, i, TokenKind::Ident) && tok_kind(
        toks,
        i + 1,
        TokenKind::Colon,
    ) {
        match sp_colon_decl(toks, i) {
            Option::Some(j) => seq![sv_op(toks, i)] + sv_rb_ops(toks, j),
            Option::None => Seq::empty(),
        }
    } else {
        Seq::empty()
    }
}

pub open spec fn sv_fuzzify(toks: Seq<TokSpec>, i: int) -> BlockV {
    BlockV::Fuzzify { var: toks[i + 1].text, terms: sv_terms(toks, i + 2) }
}

pub open spec fn sv_defuzzify(toks: Seq<TokSpec>, i: int) -> BlockV {
    BlockV::Defuzzify {
        var: toks[i + 1].text,
        terms: sv_terms(toks, i + 2),
        ops: match sp_terms(toks, i + 2) {
            Option::Some(j) => sv_op_list(toks, j),
            Option::None => Seq::empty(),
        },
    }
}

pub open spec fn sv_ruleblock(toks: Seq<TokSpec>, i: int) -> BlockV {
    BlockV::RuleBlock {
        name: toks[i + 1].text,
        ops: sv_rb_ops(toks, i + 2),
        rules: match sp_rb_ops(toks, i + 2) {
            Option::Some(j) => sv_rules(toks, j),
            Option::None => Seq::empty(),
        },
    }
}

pub open spec fn sv_block(toks: Seq<TokSpec>, i: int) -> BlockV {
    if tok_kw(toks, i, "VAR_INPUT"@) {
        BlockV::VarInput(sv_decl_list(toks, i + 1))
    } else if tok_kw(toks, i, "VAR_OUTPUT"@) {
        BlockV::VarOutput(sv_decl_list(toks, i + 1))
    } else if tok_kw(toks, i, "FUZZIFY"@) {
        sv_fuzzify(toks, i)
    } else if tok_kw(toks, i, "DEFUZZIFY"@) {
        sv_defuzzify(toks, i)
    } else {
        sv_ruleblock(toks, i)
    }
}

pub open spec fn sv_blocks_end(toks: Seq<TokSpec>, i: int) -> Seq<BlockV>
    decreases toks.len() - i,
    when true
    via sv_blocks_end_decreases
{
    if tok_kw(toks, i, "END_FUNCTION_BLOCK"@) {
        Seq::empty()
    } else {
        match sp_block(toks, i) {
            Option::Some(j) => seq![sv_block(toks, i)] + sv_blocks_end(toks, j),
            Option::None => Seq::empty(),
        }
    }
}

#[via_fn]
proof fn sv_blocks_end_decreases(toks: Seq<TokSpec>, i: int) {
    lemma_sp_block_advance(toks, i);
}

pub open spec fn sv_blocks_eof(toks: Seq<TokSpec>, i: int) -> Seq<BlockV>
    decreases toks.len() - i,
    when true
    via sv_blocks_eof_decreases
{
    if i >= toks.len() {
        Seq::empty()
    } else {
        match sp_block(toks, i) {
            Option::Some(j) => seq![sv_block(toks, i)] + sv_blocks_eof(toks, j),
            Option::None => Seq::empty(),
        }
    }
}

#[via_fn]
proof fn sv_blocks_eof_decreases(toks: Seq<TokSpec>, i: int) {
    lemma_sp_block_advance(toks, i);
}

pub open spec fn sv_fcl(toks: Seq<TokSpec>) -> FclV {
    if tok_kw(toks, 0, "FUNCTION_BLOCK"@) {
        FclV { name: Option::Some(toks[1].text), blocks: sv_blocks_end(toks, 2) }
    } else {
        FclV { name: Option::None, blocks: sv_blocks_eof(toks, 0) }
    }
}

/// The parsed tree is exactly the content the token stream spells.
pub open spec fn fcl_matches(f: SynFcl, toks: Seq<TokSpec>) -> bool {
    fcl_view(f) == sv_fcl(toks)
}

/// Shape of a single token, independent of where it was read from.
pub open spec fn tok_shape_ok(t: Token) -> bool {
    match t.kind {
        TokenKind::Ident => ident_shape(t.text@),
        TokenKind::Number => number_shape(t.text@),
        _ => true,
    }
}

/// Character-wise string equality.
pub fn str_eq(a: &str, b: &str) -> (r: bool)
    ensures
        r == (a@ == b@),
{
    let la = a.unicode_len();
    let lb = b.unicode_len();
    if la != lb {
        return false;
    }
    let mut i: usize = 0;
    while i < la
        invariant
            la == a@.len(),
            la == b@.len(),
            0 <= i <= la,
            forall|k: int| 0 <= k < i ==> a@[k] == b@[k],
        decreases la - i,
    {
        if a.get_char(i) != b.get_char(i) {
            return false;
        }
        i = i + 1;
    }
    proof {
        assert(a@ =~= b@);
    }
    true
}

/// A position in a token stream whose tokens are all well shaped.
struct Cursor {
    toks: Vec<Token>,
    pos: usize,
}

impl Cursor {
    spec fn wf(&self) -> bool {
        &&& self.pos <= self.toks@.len()
        &&& forall|k: int| 0 <= k < self.toks@.len() ==> tok_shape_ok(#[trigger] self.toks@[k])
    }
}

/// Tokenize `input` and position a cursor at its start.
fn lex_cursor(input: &str) -> (r: Result<Cursor, SyntaxError>)
    ensures
        r is Ok ==> r->Ok_0.wf() && r->Ok_0.pos == 0,
        (r is Ok) <==> sl_ok(input@, 0),
        r is Ok ==> abst(r->Ok_0.toks@) == sl_tokens(input@, 0),
{
    let toks = match tokenize(input) {
        Ok(t) => t,
        Err(e) => {
            return Result::Err(e);
        },
    };
    proof {
        assert forall|k: int| 0 <= k < toks@.len() implies tok_shape_ok(#[trigger] toks@[k]) by {
            assert(token_wf(toks@[k], input@));
        }
    }
    Result::Ok(Cursor { toks, pos: 0 })
}

/// A syntax error at the current token (or at end of input, marked by
/// line 0).
fn err_here(cur: &Cursor, expected: &str) -> (r: SyntaxError)
    requires
        cur.wf(),
{
    if cur.pos < cur.toks.len() {
        SyntaxError {
            line: cur.toks[cur.pos].line,
            col: cur.toks[cur.pos].col,
            expected: expected.to_owned(),
            found: cur.toks[cur.pos].text.clone(),
        }
    } else {
        SyntaxError {
            line: 0,
            col: 0,
            expected: expected.to_owned(),
            found: "end of input".to_owned(),
        }
    }
}

/// Whether the current token has the given kind.
fn at_kind(cur: &Cursor, kind: TokenKind) -> (r: bool)
    requires
        cur.wf(),
    ensures
        r == (cur.pos < cur.toks@.len() && cur.toks@[cur.pos as int].kind == kind),
{
    if cur.pos < cur.toks.len() {
        cur.toks[cur.pos].kind == kind
    } else {
        false
    }
}

/// Whether the current token is the identifier `kw`.
fn at_kw(cur: &Cursor, kw: &str) -> (r: bool)
    requires
        cur.wf(),
    ensures
        r == (cur.pos < cur.toks@.len() && cur.toks@[cur.pos as int].kind == TokenKind::Ident
            && cur.toks@[cur.pos as int].text@ == kw@),
{
    if cur.pos < cur.toks.len() {
        if cur.toks[cur.pos].kind == TokenKind::Ident {
            str_eq(cur.toks[cur.pos].text.as_str(), kw)
        } else {
            false
        }
    } else {
        false
    }
}

/// Whether the current token is an identifier directly followed by a
/// colon (the start of an `op : value ;` declaration).
fn at_op_decl(cur: &Cursor) -> (r: bool)
    requires
        cur.wf(),
    ensures
        r == (tok_kind(abst(cur.toks@), cur.pos as int, TokenKind::Ident) && tok_kind(
            abst(cur.toks@),
            cur.pos as int + 1,
            TokenKind::Colon,
        )),
{
    if cur.pos < cur.toks.len() && cur.pos + 1 < cur.toks.len() {
        cur.toks[cur.pos].kind == TokenKind::Ident && cur.toks[cur.pos + 1].kind
            == TokenKind::Colon
    } else {
        false
    }
}

/// Advance past the current token.
fn bump(cur: &mut Cursor)
    requires
        old(cur).wf(),
        old(cur).pos < old(cur).toks@.len(),
    ensures
        final(cur).toks == old(cur).toks,
        final(cur).pos == old(cur).pos + 1,
        final(cur).wf(),
{
    let n = cur.toks.len();
    cur.pos = cur.pos + 1;
}

/// Consume one token of the given kind.
fn eat_kind(cur: &mut Cursor, kind: TokenKind, expected: &str) -> (r: Result<(), SyntaxError>)
    requires
        old(cur).wf(),
    ensures
        final(cur).toks == old(cur).toks,
        final(cur).wf(),
        (r is Ok) <==> tok_kind(abst(old(cur).toks@), old(cur).pos as int, kind),
        r is Ok ==> final(cur).pos == old(cur).pos + 1,
        r is Err ==> final(cur).pos == old(cur).pos,
{
    if cur.pos < cur.toks.len() {
        if cur.toks[cur.pos].kind == kind {
            cur.pos = cur.pos + 1;
            return Result::Ok(());
        }
    }
    Result::Err(err_here(cur, expected))
}

/// Consume the identifier `kw`.
fn eat_kw(cur: &mut Cursor, kw: &str) -> (r: Result<(), SyntaxError>)
    requires
        old(cur).wf(),
    ensures
        final(cur).toks == old(cur).toks,
        final(cur).wf(),
        (r is Ok) <==> tok_kw(abst(old(cur).toks@), old(cur).pos as int, kw@),
        r is Ok ==> final(cur).pos == old(cur).pos + 1,
        r is Err ==> final(cur).pos == old(cur).pos,
{
    if at_kw(cur, kw) {
        bump(cur);
        Result::Ok(())
    } else {
        Result::Err(err_here(cur, kw))
    }
}

/// Consume one identifier and return its text.
fn eat_ident(cur: &mut Cursor, expected: &str) -> (r: Result<String, SyntaxError>)
    requires
        old(cur).wf(),
    ensures
        final(cur).toks == old(cur).toks,
        final(cur).wf(),
        (r is Ok) <==> tok_kind(abst(old(cur).toks@), old(cur).pos as int, TokenKind::Ident),
        r is Ok ==> final(cur).pos == old(cur).pos + 1 && ident_shape(r->Ok_0@),
        r is Ok ==> r->Ok_0@ == abst(old(cur).toks@)[old(cur).pos as int].text,
        r is Err ==> final(cur).pos == old(cur).pos,
{
    if cur.pos < cur.toks.len() {
        if cur.toks[cur.pos].kind == TokenKind::Ident {
            let s = cur.toks[cur.pos].text.clone();
            proof {
                assert(tok_shape_ok(cur.toks@[cur.pos as int]));
            }
            cur.pos = cur.pos + 1;
            return Result::Ok(s);
        }
    }
    Result::Err(err_here(cur, expected))
}

/// Consume one numeric literal and return its text.
fn eat_number(cur: &mut Cursor, expected: &str) -> (r: Result<String, SyntaxError>)
    requires
        old(cur).wf(),
    ensures
        final(cur).toks == old(cur).toks,
        final(cur).wf(),
        (r is Ok) <==> tok_kind(abst(old(cur).toks@), old(cur).pos as int, TokenKind::Number),
        r is Ok ==> final(cur).pos == old(cur).pos + 1 && number_shape(r->Ok_0@),
        r is Ok ==> r->Ok_0@ == abst(old(cur).toks@)[old(cur).pos as int].text,
        r is Err ==> final(cur).pos == old(cur).pos,
{
    if cur.pos < cur.toks.len() {
        if cur.toks[cur.pos].kind == TokenKind::Number {
            let s = cur.toks[cur.pos].text.clone();
            proof {
                assert(tok_shape_ok(cur.toks@[cur.pos as int]));
            }
            cur.pos = cur.pos + 1;
            return Result::Ok(s);
        }
    }
    Result::Err(err_here(cur, expected))
}

/// declaration = identifier ":" identifier ";"
fn p_decl(cur: &mut Cursor) -> (r: Result<SynDecl, SyntaxError>)
    requires
        old(cur).wf(),
    ensures
        final(cur).toks == old(cur).toks,
        final(cur).wf(),
        old(cur).pos <= final(cur).pos,
        r is Ok ==> final(cur).pos > old(cur).pos && syn_decl_wf(r->Ok_0),
        (r is Ok) <==> sp_colon_decl(abst(old(cur).toks@), old(cur).pos as int) is Some,
        r is Ok ==> Option::Some(final(cur).pos as int) == sp_colon_decl(
            abst(old(cur).toks@),
            old(cur).pos as int,
        ),
        r is Ok ==> decl_view(r->Ok_0) == sv_decl(abst(old(cur).toks@), old(cur).pos as int),
{
    let name = match eat_ident(cur, "a variable name") {
        Ok(s) => s,
        Err(e) => {
            return Result::Err(e);
        },
    };
    match eat_kind(cur, TokenKind::Colon, ":") {
        Ok(u) => u,
        Err(e) => {
            return Result::Err(e);
        },
    };
    let ty = match eat_ident(cur, "a type keyword") {
        Ok(s) => s,
        Err(e) => {
            return Result::Err(e);
        },
    };
    match eat_kind(cur, TokenKind::Semicolon, ";") {
        Ok(u) => u,
        Err(e) => {
            return Result::Err(e);
        },
    };
    Result::Ok(SynDecl { name, ty })
}

/// var_input / var_output body: declaration* "END_VAR"
fn p_decl_list(cur: &mut Cursor) -> (r: Result<Vec<SynDecl>, SyntaxError>)
    requires
        old(cur).wf(),
    ensures
        final(cur).toks == old(cur).toks,
        final(cur).wf(),
        old(cur).pos <= final(cur).pos,
        r is Ok ==> forall|i: int| 0 <= i < r->Ok_0@.len() ==> syn_decl_wf(#[trigger] r->Ok_0@[i]),
        (r is Ok) <==> sp_decl_list(abst(old(cur).toks@), old(cur).pos as int) is Some,
        r is Ok ==> Option::Some(final(cur).pos as int) == sp_decl_list(
            abst(old(cur).toks@),
            old(cur).pos as int,
        ),
        r is Ok ==> r->Ok_0@.map_values(|d: SynDecl| decl_view(d)) == sv_decl_list(
            abst(old(cur).toks@),
            old(cur).pos as int,
        ),
{
    let mut decls: Vec<SynDecl> = Vec::new();
    while !at_kw(cur, "END_VAR")
        invariant
            cur.wf(),
            cur.toks == old(cur).toks,
            old(cur).pos <= cur.pos,
            sp_decl_list(abst(cur.toks@), old(cur).pos as int) == sp_decl_list(
                abst(cur.toks@),
                cur.pos as int,
            ),
            sv_decl_list(abst(cur.toks@), old(cur).pos as int) == decls@.map_values(
                |d: SynDecl| decl_view(d),
            ) + sv_decl_list(abst(cur.toks@), cur.pos as int),
            forall|i: int| 0 <= i < decls@.len() ==> syn_decl_wf(#[trigger] decls@[i]),
        decreases cur.toks@.len() - cur.pos,
    {
        let ghost p0 = cur.pos as int;
        let ghost decls0 = decls@;
        let d = match p_decl(cur) {
            Ok(d) => d,
            Err(e) => {
                return Result::Err(e);
            },
        };
        decls.push(d);
        proof {
            let t = abst(cur.toks@);
            assert(decls@.map_values(|d2: SynDecl| decl_view(d2)) =~= decls0.map_values(
                |d2: SynDecl| decl_view(d2),
            ) + seq![decl_view(d)]);
            assert(sv_decl_list(t, p0) == seq![sv_decl(t, p0)] + sv_decl_list(t, cur.pos as int));
            assert(decls0.map_values(|d2: SynDecl| decl_view(d2)) + sv_decl_list(t, p0)
                =~= decls@.map_values(|d2: SynDecl| decl_view(d2)) + sv_decl_list(
                t,
                cur.pos as int,
            ));
        }
    }
    match eat_kw(cur, "END_VAR") {
        Ok(u) => u,
        Err(e) => {
            return Result::Err(e);
        },
    };
    proof {
        assert(decls@.map_values(|d: SynDecl| decl_view(d)) + Seq::<DeclV>::empty()
            =~= decls@.map_values(|d: SynDecl| decl_view(d)));
    }
    Result::Ok(decls)
}

/// point = "(" number "," number ")"
fn p_point(cur: &mut Cursor) -> (r: Result<SynPoint, SyntaxError>)
    requires
        old(cur).wf(),
    ensures
        final(cur).toks == old(cur).toks,
        final(cur).wf(),
        old(cur).pos <= final(cur).pos,
        r is Ok ==> final(cur).pos > old(cur).pos && syn_point_wf(r->Ok_0),
        (r is Ok) <==> sp_point(abst(old(cur).toks@), old(cur).pos as int) is Some,
        r is Ok ==> Option::Some(final(cur).pos as int) == sp_point(
            abst(old(cur).toks@),
            old(cur).pos as int,
        ),
        r is Ok ==> point_view(r->Ok_0) == sv_point(abst(old(cur).toks@), old(cur).pos as int),
{
    match eat_kind(cur, TokenKind::LParen, "(") {
        Ok(u) => u,
        Err(e) => {
            return Result::Err(e);
        },
    };
    let x = match eat_number(cur, "a number") {
        Ok(s) => s,
        Err(e) => {
            return Result::Err(e);
        },
    };
    match eat_kind(cur, TokenKind::Comma, ",") {
        Ok(u) => u,
        Err(e) => {
            return Result::Err(e);
        },
    };
    let y = match eat_number(cur, "a number") {
        Ok(s) => s,
        Err(e) => {
            return Result::Err(e);
        },
    };
    match eat_kind(cur, TokenKind::RParen, ")") {
        Ok(u) => u,
        Err(e) => {
            return Result::Err(e);
        },
    };
    Result::Ok(SynPoint { x, y })
}

/// term = "TERM" identifier ":=" point+ ";"
fn p_term(cur: &mut Cursor) -> (r: Result<SynTerm, SyntaxError>)
    requires
        old(cur).wf(),
    ensures
        final(cur).toks == old(cur).toks,
        final(cur).wf(),
        old(cur).pos <= final(cur).pos,
        r is Ok ==> final(cur).pos > old(cur).pos && syn_term_wf(r->Ok_0),
        (r is Ok) <==> sp_term(abst(old(cur).toks@), old(cur).pos as int) is Some,
        r is Ok ==> Option::Some(final(cur).pos as int) == sp_term(
            abst(old(cur).toks@),
            old(cur).pos as int,
        ),
        r is Ok ==> term_view(r->Ok_0) == sv_term(abst(old(cur).toks@), old(cur).pos as int),
{
    match eat_kw(cur, "TERM") {
        Ok(u) => u,
        Err(e) => {
            return Result::Err(e);
        },
    };
    let name = match eat_ident(cur, "a term name") {
        Ok(s) => s,
        Err(e) => {
            return Result::Err(e);
        },
    };
    match eat_kind(cur, TokenKind::Assign, ":=") {
        Ok(u) => u,
        Err(e) => {
            return Result::Err(e);
        },
    };
    let mut points: Vec<SynPoint> = Vec::new();
    let p0 = match p_point(cur) {
        Ok(p) => p,
        Err(e) => {
            return Result::Err(e);
        },
    };
    points.push(p0);
    proof {
        assert(points@.map_values(|q: SynPoint| point_view(q)) =~= seq![
            point_view(p0),
        ]);
    }
    while at_kind(cur, TokenKind::LParen)
        invariant
            cur.wf(),
            cur.toks == old(cur).toks,
            old(cur).pos < cur.pos,
            points@.len() >= 1,
            sp_points(abst(cur.toks@), old(cur).pos + 3) == (if tok_kind(
                abst(cur.toks@),
                cur.pos as int,
                TokenKind::LParen,
            ) {
                sp_points(abst(cur.toks@), cur.pos as int)
            } else {
                Option::Some(cur.pos as int)
            }),
            sv_points(abst(cur.toks@), old(cur).pos + 3) == points@.map_values(
                |q: SynPoint| point_view(q),
            ) + (if tok_kind(abst(cur.toks@), cur.pos as int, TokenKind::LParen) {
                sv_points(abst(cur.toks@), cur.pos as int)
            } else {
                Seq::<PointV>::empty()
            }),
            forall|i: int| 0 <= i < points@.len() ==> syn_point_wf(#[trigger] points@[i]),
        decreases cur.toks@.len() - cur.pos,
    {
        let ghost p1 = cur.pos as int;
        let ghost points0 = points@;
        let p = match p_point(cur) {
            Ok(p) => p,
            Err(e) => {
                return Result::Err(e);
            },
        };
        points.push(p);
        proof {
            let t = abst(cur.toks@);
            assert(points@.map_values(|q: SynPoint| point_view(q)) =~= points0.map_values(
                |q: SynPoint| point_view(q),
            ) + seq![point_view(p)]);
            assert(points0.map_values(|q: SynPoint| point_view(q)) + sv_points(t, p1)
                =~= points@.map_values(|q: SynPoint| point_view(q)) + (if tok_kind(
                t,
                cur.pos as int,
                TokenKind::LParen,
            ) {
                sv_points(t, cur.pos as int)
            } else {
                Seq::<PointV>::empty()
            }));
        }
    }
    proof {
        assert(points@.map_values(|q: SynPoint| point_view(q)) + Seq::<PointV>::empty()
            =~= points@.map_values(|q: SynPoint| point_view(q)));
    }
    match eat_kind(cur, TokenKind::Semicolon, ";") {
        Ok(u) => u,
        Err(e) => {
            return Result::Err(e);
        },
    };
    Result::Ok(SynTerm { name, points })
}

/// op_decl = identifier ":" identifier ";"
fn p_op_decl(cur: &mut Cursor) -> (r: Result<SynOpDecl, SyntaxError>)
    requires
        old(cur).wf(),
    ensures
        final(cur).toks == old(cur).toks,
        final(cur).wf(),
        old(cur).pos <= final(cur).pos,
        r is Ok ==> final(cur).pos > old(cur).pos && syn_op_decl_wf(r->Ok_0),
        (r is Ok) <==> sp_colon_decl(abst(old(cur).toks@), old(cur).pos as int) is Some,
        r is Ok ==> Option::Some(final(cur).pos as int) == sp_colon_decl(
            abst(old(cur).toks@),
            old(cur).pos as int,
        ),
        r is Ok ==> op_view(r->Ok_0) == sv_op(abst(old(cur).toks@), old(cur).pos as int),
{
    let op = match eat_ident(cur, "an operator name") {
        Ok(s) => s,
        Err(e) => {
            return Result::Err(e);
        },
    };
    match eat_kind(cur, TokenKind::Colon, ":") {
        Ok(u) => u,
        Err(e) => {
            return Result::Err(e);
        },
    };
    let value = match eat_ident(cur, "an operator value") {
        Ok(s) => s,
        Err(e) => {
            return Result::Err(e);
        },
    };
    match eat_kind(cur, TokenKind::Semicolon, ";") {
        Ok(u) => u,
        Err(e) => {
            return Result::Err(e);
        },
    };
    Result::Ok(SynOpDecl { op, value })
}

/// operators = op_decl*
fn p_op_decls(cur: &mut Cursor) -> (r: Result<Vec<SynOpDecl>, SyntaxError>)
    requires
        old(cur).wf(),
    ensures
        final(cur).toks == old(cur).toks,
        final(cur).wf(),
        old(cur).pos <= final(cur).pos,
        r is Ok ==> forall|i: int|
            0 <= i < r->Ok_0@.len() ==> syn_op_decl_wf(#[trigger] r->Ok_0@[i]),
        (r is Ok) <==> sp_op_list(abst(old(cur).toks@), old(cur).pos as int) is Some,
        r is Ok ==> Option::Some(final(cur).pos as int) == sp_op_list(
            abst(old(cur).toks@),
            old(cur).pos as int,
        ),
        r is Ok ==> r->Ok_0@.map_values(|o: SynOpDecl| op_view(o)) == sv_op_list(
            abst(old(cur).toks@),
            old(cur).pos as int,
        ),
{
    let mut ops: Vec<SynOpDecl> = Vec::new();
    while at_op_decl(cur)
        invariant
            cur.wf(),
            cur.toks == old(cur).toks,
            old(cur).pos <= cur.pos,
            sp_op_list(abst(cur.toks@), old(cur).pos as int) == sp_op_list(abst(cur.toks@), cur.pos as int),
            sv_op_list(abst(cur.toks@), old(cur).pos as int) == ops@.map_values(
                |o: SynOpDecl| op_view(o),
            ) + sv_op_list(abst(cur.toks@), cur.pos as int),
            forall|i: int| 0 <= i < ops@.len() ==> syn_op_decl_wf(#[trigger] ops@[i]),
        decreases cur.toks@.len() - cur.pos,
    {
        let ghost p0 = cur.pos as int;
        let ghost ops0 = ops@;
        let o = match p_op_decl(cur) {
            Ok(o) => o,
            Err(e) => {
                return Result::Err(e);
            },
        };
        ops.push(o);
        proof {
            let t = abst(cur.toks@);
            assert(ops@.map_values(|o2: SynOpDecl| op_view(o2)) =~= ops0.map_values(
                |o2: SynOpDecl| op_view(o2),
            ) + seq![op_view(o)]);
            assert(sv_op_list(t, p0) == seq![sv_op(t, p0)] + sv_op_list(t, cur.pos as int));
            assert(ops0.map_values(|o2: SynOpDecl| op_view(o2)) + sv_op_list(t, p0)
                =~= ops@.map_values(|o2: SynOpDecl| op_view(o2)) + sv_op_list(t, cur.pos as int));
        }
    }
    proof {
        assert(ops@.map_values(|o: SynOpDecl| op_view(o)) + Seq::<OpV>::empty()
            =~= ops@.map_values(|o: SynOpDecl| op_view(o)));
    }
    Result::Ok(ops)
}

/// fuzzify = "FUZZIFY" identifier term* "END_FUZZIFY"
fn p_fuzzify(cur: &mut Cursor) -> (r: Result<SynBlock, SyntaxError>)
    requires
        old(cur).wf(),
    ensures
        final(cur).toks == old(cur).toks,
        final(cur).wf(),
        old(cur).pos <= final(cur).pos,
        r is Ok ==> final(cur).pos > old(cur).pos && syn_block_wf(r->Ok_0),
        (r is Ok) <==> sp_fuzzify(abst(old(cur).toks@), old(cur).pos as int) is Some,
        r is Ok ==> Option::Some(final(cur).pos as int) == sp_fuzzify(
            abst(old(cur).toks@),
            old(cur).pos as int,
        ),
        r is Ok ==> block_view(r->Ok_0) == sv_fuzzify(abst(old(cur).toks@), old(cur).pos as int),
{
    match eat_kw(cur, "FUZZIFY") {
        Ok(u) => u,
        Err(e) => {
            return Result::Err(e);
        },
    };
    let var = match eat_ident(cur, "a variable name") {
        Ok(s) => s,
        Err(e) => {
            return Result::Err(e);
        },
    };
    let mut terms: Vec<SynTerm> = Vec::new();
    while at_kw(cur, "TERM")
        invariant
            cur.wf(),
            cur.toks == old(cur).toks,
            old(cur).pos < cur.pos,
            sp_terms(abst(cur.toks@), old(cur).pos + 2) == sp_terms(abst(cur.toks@), cur.pos as int),
            sv_terms(abst(cur.toks@), old(cur).pos + 2) == terms@.map_values(
                |t2: SynTerm| term_view(t2),
            ) + sv_terms(abst(cur.toks@), cur.pos as int),
            forall|i: int| 0 <= i < terms@.len() ==> syn_term_wf(#[trigger] terms@[i]),
        decreases cur.toks@.len() - cur.pos,
    {
        let ghost p1 = cur.pos as int;
        let ghost terms0 = terms@;
        let t = match p_term(cur) {
            Ok(t) => t,
            Err(e) => {
                return Result::Err(e);
            },
        };
        terms.push(t);
        proof {
            let tk = abst(cur.toks@);
            assert(terms@.map_values(|t2: SynTerm| term_view(t2)) =~= terms0.map_values(
                |t2: SynTerm| term_view(t2),
            ) + seq![term_view(t)]);
            assert(sv_terms(tk, p1) == seq![sv_term(tk, p1)] + sv_terms(tk, cur.pos as int));
            assert(terms0.map_values(|t2: SynTerm| term_view(t2)) + sv_terms(tk, p1)
                =~= terms@.map_values(|t2: SynTerm| term_view(t2)) + sv_terms(
                tk,
                cur.pos as int,
            ));
        }
    }
    proof {
        assert(terms@.map_values(|t2: SynTerm| term_view(t2)) + Seq::<TermV>::empty()
            =~= terms@.map_values(|t2: SynTerm| term_view(t2)));
    }
    match eat_kw(cur, "END_FUZZIFY") {
        Ok(u) => u,
        Err(e) => {
            return Result::Err(e);
        },
    };
    Result::Ok(SynBlock::Fuzzify { var, terms })
}

/// defuzzify = "DEFUZZIFY" identifier term* op_decl* "END_DEFUZZIFY"
fn p_defuzzify(cur: &mut Cursor) -> (r: Result<SynBlock, SyntaxError>)
    requires
        old(cur).wf(),
    ensures
        final(cur).toks == old(cur).toks,
        final(cur).wf(),
        old(cur).pos <= final(cur).pos,
        r is Ok ==> final(cur).pos > old(cur).pos && syn_block_wf(r->Ok_0),
        (r is Ok) <==> sp_defuzzify(abst(old(cur).toks@), old(cur).pos as int) is Some,
        r is Ok ==> Option::Some(final(cur).pos as int) == sp_defuzzify(
            abst(old(cur).toks@),
            old(cur).pos as int,
        ),
        r is Ok ==> block_view(r->Ok_0) == sv_defuzzify(
            abst(old(cur).toks@),
            old(cur).pos as int,
        ),
{
    match eat_kw(cur, "DEFUZZIFY") {
        Ok(u) => u,
        Err(e) => {
            return Result::Err(e);
        },
    };
    let var = match eat_ident(cur, "a variable name") {
        Ok(s) => s,
        Err(e) => {
            return Result::Err(e);
        },
    };
    let mut terms: Vec<SynTerm> = Vec::new();
    while at_kw(cur, "TERM")
        invariant
            cur.wf(),
            cur.toks == old(cur).toks,
            old(cur).pos < cur.pos,
            sp_terms(abst(cur.toks@), old(cur).pos + 2) == sp_terms(abst(cur.toks@), cur.pos as int),
            sv_terms(abst(cur.toks@), old(cur).pos + 2) == terms@.map_values(
                |t2: SynTerm| term_view(t2),
            ) + sv_terms(abst(cur.toks@), cur.pos as int),
            forall|i: int| 0 <= i < terms@.len() ==> syn_term_wf(#[trigger] terms@[i]),
        decreases cur.toks@.len() - cur.pos,
    {
        let ghost p1 = cur.pos as int;
        let ghost terms0 = terms@;
        let t = match p_term(cur) {
            Ok(t) => t,
            Err(e) => {
                return Result::Err(e);
            },
        };
        terms.push(t);
        proof {
            let tk = abst(cur.toks@);
            assert(terms@.map_values(|t2: SynTerm| term_view(t2)) =~= terms0.map_values(
                |t2: SynTerm| term_view(t2),
            ) + seq![term_view(t)]);
            assert(sv_terms(tk, p1) == seq![sv_term(tk, p1)] + sv_terms(tk, cur.pos as int));
            assert(terms0.map_values(|t2: SynTerm| term_view(t2)) + sv_terms(tk, p1)
                =~= terms@.map_values(|t2: SynTerm| term_view(t2)) + sv_terms(
                tk,
                cur.pos as int,
            ));
        }
    }
    proof {
        assert(terms@.map_values(|t2: SynTerm| term_view(t2)) + Seq::<TermV>::empty()
            =~= terms@.map_values(|t2: SynTerm| term_view(t2)));
    }
    let ops = match p_op_decls(cur) {
        Ok(o) => o,
        Err(e) => {
            return Result::Err(e);
        },
    };
    match eat_kw(cur, "END_DEFUZZIFY") {
        Ok(u) => u,
        Err(e) => {
            return Result::Err(e);
        },
    };
    Result::Ok(SynBlock::Defuzzify { var, terms, ops })
}

/// clause = identifier "IS" identifier
fn p_clause(cur: &mut Cursor) -> (r: Result<SynClause, SyntaxError>)
    requires
        old(cur).wf(),
    ensures
        final(cur).toks == old(cur).toks,
        final(cur).wf(),
        old(cur).pos <= final(cur).pos,
        r is Ok ==> final(cur).pos > old(cur).pos && syn_clause_wf(r->Ok_0),
        (r is Ok) <==> sp_clause(abst(old(cur).toks@), old(cur).pos as int) is Some,
        r is Ok ==> Option::Some(final(cur).pos as int) == sp_clause(
            abst(old(cur).toks@),
            old(cur).pos as int,
        ),
        r is Ok ==> clause_view(r->Ok_0) == sv_clause(abst(old(cur).toks@), old(cur).pos as int),
{
    let var = match eat_ident(cur, "a variable name") {
        Ok(s) => s,
        Err(e) => {
            return Result::Err(e);
        },
    };
    match eat_kw(cur, "IS") {
        Ok(u) => u,
        Err(e) => {
            return Result::Err(e);
        },
    };
    let set = match eat_ident(cur, "a term name") {
        Ok(s) => s,
        Err(e) => {
            return Result::Err(e);
        },
    };
    Result::Ok(SynClause { var, set })
}

/// antecedent = clause (("AND" | "OR") clause)*
fn p_antecedent(cur: &mut Cursor) -> (r: Result<(Vec<SynClause>, Vec<Connective>), SyntaxError>)
    requires
        old(cur).wf(),
    ensures
        final(cur).toks == old(cur).toks,
        final(cur).wf(),
        old(cur).pos <= final(cur).pos,
        r is Ok ==> final(cur).pos > old(cur).pos && r->Ok_0.0@.len() >= 1 && r->Ok_0.1@.len() + 1
            == r->Ok_0.0@.len() && forall|i: int|
            0 <= i < r->Ok_0.0@.len() ==> syn_clause_wf(#[trigger] r->Ok_0.0@[i]),
        (r is Ok) <==> sp_antecedent(abst(old(cur).toks@), old(cur).pos as int) is Some,
        r is Ok ==> Option::Some(final(cur).pos as int) == sp_antecedent(
            abst(old(cur).toks@),
            old(cur).pos as int,
        ),
        r is Ok ==> r->Ok_0.0@.map_values(|c: SynClause| clause_view(c))
            == sv_antecedent_clauses(abst(old(cur).toks@), old(cur).pos as int),
        r is Ok ==> r->Ok_0.1@ == sv_antecedent_conns(abst(old(cur).toks@), old(cur).pos as int),
{
    let mut clauses: Vec<SynClause> = Vec::new();
    let mut conns: Vec<Connective> = Vec::new();
    let c0 = match p_clause(cur) {
        Ok(c) => c,
        Err(e) => {
            return Result::Err(e);
        },
    };
    clauses.push(c0);
    let ghost j0 = cur.pos as int;
    proof {
        assert(clauses@.map_values(|c2: SynClause| clause_view(c2)) =~= seq![clause_view(c0)]);
    }
    loop
        invariant
            cur.wf(),
            cur.toks == old(cur).toks,
            old(cur).pos < cur.pos,
            clauses@.len() >= 1,
            conns@.len() + 1 == clauses@.len(),
            sp_clause(abst(cur.toks@), old(cur).pos as int) == Option::Some(j0),
            sp_conns(abst(cur.toks@), j0) == sp_conns(abst(cur.toks@), cur.pos as int),
            sv_antecedent_clauses(abst(cur.toks@), old(cur).pos as int) == clauses@.map_values(
                |c2: SynClause| clause_view(c2),
            ) + sv_conns_clauses(abst(cur.toks@), cur.pos as int),
            sv_antecedent_conns(abst(cur.toks@), old(cur).pos as int) == conns@ + sv_conns_ops(
                abst(cur.toks@),
                cur.pos as int,
            ),
            forall|i: int| 0 <= i < clauses@.len() ==> syn_clause_wf(#[trigger] clauses@[i]),
        ensures
            cur.wf(),
            cur.toks == old(cur).toks,
            old(cur).pos < cur.pos,
            clauses@.len() >= 1,
            conns@.len() + 1 == clauses@.len(),
            forall|i: int| 0 <= i < clauses@.len() ==> syn_clause_wf(#[trigger] clauses@[i]),
            sp_clause(abst(cur.toks@), old(cur).pos as int) == Option::Some(j0),
            sp_conns(abst(cur.toks@), j0) == Option::Some(cur.pos as int),
            sv_antecedent_clauses(abst(cur.toks@), old(cur).pos as int) == clauses@.map_values(
                |c2: SynClause| clause_view(c2),
            ),
            sv_antecedent_conns(abst(cur.toks@), old(cur).pos as int) == conns@,
        decreases cur.toks@.len() - cur.pos,
    {
        let conn = if at_kw(cur, "AND") {
            Connective::And
        } else if at_kw(cur, "OR") {
            Connective::Or
        } else {
            proof {
                let t = abst(cur.toks@);
                assert(sv_conns_clauses(t, cur.pos as int) =~= Seq::<ClauseV>::empty());
                assert(sv_conns_ops(t, cur.pos as int) =~= Seq::<Connective>::empty());
                assert(clauses@.map_values(|c2: SynClause| clause_view(c2)) + Seq::<
                    ClauseV,
                >::empty() =~= clauses@.map_values(|c2: SynClause| clause_view(c2)));
                assert(conns@ + Seq::<Connective>::empty() =~= conns@);
            }
            break;
        };
        let ghost p1 = cur.pos as int;
        let ghost clauses0 = clauses@;
        let ghost conns0 = conns@;
        bump(cur);
        let c = match p_clause(cur) {
            Ok(c) => c,
            Err(e) => {
                return Result::Err(e);
            },
        };
        clauses.push(c);
        conns.push(conn);
        proof {
            let t = abst(cur.toks@);
            assert(clauses@.map_values(|c2: SynClause| clause_view(c2)) =~= clauses0.map_values(
                |c2: SynClause| clause_view(c2),
            ) + seq![clause_view(c)]);
            assert(conns@ =~= conns0 + seq![conn]);
            assert(sv_conns_clauses(t, p1) == seq![sv_clause(t, p1 + 1)] + sv_conns_clauses(
                t,
                cur.pos as int,
            ));
            assert(sv_conns_ops(t, p1) == seq![conn] + sv_conns_ops(t, cur.pos as int));
            assert(clauses0.map_values(|c2: SynClause| clause_view(c2)) + sv_conns_clauses(t, p1)
                =~= clauses@.map_values(|c2: SynClause| clause_view(c2)) + sv_conns_clauses(
                t,
                cur.pos as int,
            ));
            assert(conns0 + sv_conns_ops(t, p1) =~= conns@ + sv_conns_ops(t, cur.pos as int));
        }
    }
    Result::Ok((clauses, conns))
}

/// rule = "RULE" number ":" "IF" antecedent "THEN" consequent ";"
fn p_rule(cur: &mut Cursor) -> (r: Result<SynRule, SyntaxError>)
    requires
        old(cur).wf(),
    ensures
        final(cur).toks == old(cur).toks,
        final(cur).wf(),
        old(cur).pos <= final(cur).pos,
        r is Ok ==> final(cur).pos > old(cur).pos && syn_rule_wf(r->Ok_0),
        (r is Ok) <==> sp_rule(abst(old(cur).toks@), old(cur).pos as int) is Some,
        r is Ok ==> Option::Some(final(cur).pos as int) == sp_rule(
            abst(old(cur).toks@),
            old(cur).pos as int,
        ),
        r is Ok ==> rule_view(r->Ok_0) == sv_rule(abst(old(cur).toks@), old(cur).pos as int),
{
    match eat_kw(cur, "RULE") {
        Ok(u) => u,
        Err(e) => {
            return Result::Err(e);
        },
    };
    match eat_number(cur, "a rule number") {
        Ok(s) => s,
        Err(e) => {
            return Result::Err(e);
        },
    };
    match eat_kind(cur, TokenKind::Colon, ":") {
        Ok(u) => u,
        Err(e) => {
            return Result::Err(e);
        },
    };
    match eat_kw(cur, "IF") {
        Ok(u) => u,
        Err(e) => {
            return Result::Err(e);
        },
    };
    let (clauses, connectives) = match p_antecedent(cur) {
        Ok(a) => a,
        Err(e) => {
            return Result::Err(e);
        },
    };
    match eat_kw(cur, "THEN") {
        Ok(u) => u,
        Err(e) => {
            return Result::Err(e);
        },
    };
    let consequent = match p_clause(cur) {
        Ok(c) => c,
        Err(e) => {
            return Result::Err(e);
        },
    };
    match eat_kind(cur, TokenKind::Semicolon, ";") {
        Ok(u) => u,
        Err(e) => {
            return Result::Err(e);
        },
    };
    Result::Ok(SynRule { clauses, connectives, consequent })
}

/// ruleblock = "RULEBLOCK" identifier operators rule* "END_RULEBLOCK"
fn p_ruleblock(cur: &mut Cursor) -> (r: Result<SynBlock, SyntaxError>)
    requires
        old(cur).wf(),
    ensures
        final(cur).toks == old(cur).toks,
        final(cur).wf(),
        old(cur).pos <= final(cur).pos,
        r is Ok ==> final(cur).pos > old(cur).pos && syn_block_wf(r->Ok_0),
        (r is Ok) <==> sp_ruleblock(abst(old(cur).toks@), old(cur).pos as int) is Some,
        r is Ok ==> Option::Some(final(cur).pos as int) == sp_ruleblock(
            abst(old(cur).toks@),
            old(cur).pos as int,
        ),
        r is Ok ==> block_view(r->Ok_0) == sv_ruleblock(
            abst(old(cur).toks@),
            old(cur).pos as int,
        ),
{
    match eat_kw(cur, "RULEBLOCK") {
        Ok(u) => u,
        Err(e) => {
            return Result::Err(e);
        },
    };
    let name = match eat_ident(cur, "a rule block name") {
        Ok(s) => s,
        Err(e) => {
            return Result::Err(e);
        },
    };
    let mut ops: Vec<SynOpDecl> = Vec::new();
    while !at_kw(cur, "RULE") && at_op_decl(cur)
        invariant
            cur.wf(),
            cur.toks == old(cur).toks,
            old(cur).pos < cur.pos,
            sp_rb_ops(abst(cur.toks@), old(cur).pos + 2) == sp_rb_ops(abst(cur.toks@), cur.pos as int),
            sv_rb_ops(abst(cur.toks@), old(cur).pos + 2) == ops@.map_values(
                |o2: SynOpDecl| op_view(o2),
            ) + sv_rb_ops(abst(cur.toks@), cur.pos as int),
            forall|i: int| 0 <= i < ops@.len() ==> syn_op_decl_wf(#[trigger] ops@[i]),
        decreases cur.toks@.len() - cur.pos,
    {
        let ghost p1 = cur.pos as int;
        let ghost ops0 = ops@;
        let o = match p_op_decl(cur) {
            Ok(o) => o,
            Err(e) => {
                return Result::Err(e);
            },
        };
        ops.push(o);
        proof {
            let tk = abst(cur.toks@);
            assert(ops@.map_values(|o2: SynOpDecl| op_view(o2)) =~= ops0.map_values(
                |o2: SynOpDecl| op_view(o2),
            ) + seq![op_view(o)]);
            assert(sv_rb_ops(tk, p1) == seq![sv_op(tk, p1)] + sv_rb_ops(tk, cur.pos as int));
            assert(ops0.map_values(|o2: SynOpDecl| op_view(o2)) + sv_rb_ops(tk, p1)
                =~= ops@.map_values(|o2: SynOpDecl| op_view(o2)) + sv_rb_ops(
                tk,
                cur.pos as int,
            ));
        }
    }
    proof {
        assert(ops@.map_values(|o2: SynOpDecl| op_view(o2)) + Seq::<OpV>::empty()
            =~= ops@.map_values(|o2: SynOpDecl| op_view(o2)));
    }
    let mut rules: Vec<SynRule> = Vec::new();
    let ghost jops = cur.pos as int;
    while at_kw(cur, "RULE")
        invariant
            cur.wf(),
            cur.toks == old(cur).toks,
            old(cur).pos < cur.pos,
            sp_rb_ops(abst(cur.toks@), old(cur).pos + 2) == Option::Some(jops),
            sp_rules(abst(cur.toks@), jops) == sp_rules(abst(cur.toks@), cur.pos as int),
            sv_rules(abst(cur.toks@), jops) == rules@.map_values(|r2: SynRule| rule_view(r2))
                + sv_rules(abst(cur.toks@), cur.pos as int),
            forall|i: int| 0 <= i < rules@.len() ==> syn_rule_wf(#[trigger] rules@[i]),
        decreases cur.toks@.len() - cur.pos,
    {
        let ghost p1 = cur.pos as int;
        let ghost rules0 = rules@;
        let ru = match p_rule(cur) {
            Ok(ru) => ru,
            Err(e) => {
                return Result::Err(e);
            },
        };
        rules.push(ru);
        proof {
            let tk = abst(cur.toks@);
            assert(rules@.map_values(|r2: SynRule| rule_view(r2)) =~= rules0.map_values(
                |r2: SynRule| rule_view(r2),
            ) + seq![rule_view(ru)]);
            assert(sv_rules(tk, p1) == seq![sv_rule(tk, p1)] + sv_rules(tk, cur.pos as int));
            assert(rules0.map_values(|r2: SynRule| rule_view(r2)) + sv_rules(tk, p1)
                =~= rules@.map_values(|r2: SynRule| rule_view(r2)) + sv_rules(
                tk,
                cur.pos as int,
            ));
        }
    }
    proof {
        assert(rules@.map_values(|r2: SynRule| rule_view(r2)) + Seq::<RuleV>::empty()
            =~= rules@.map_values(|r2: SynRule| rule_view(r2)));
    }
    match eat_kw(cur, "END_RULEBLOCK") {
        Ok(u) => u,
        Err(e) => {
            return Result::Err(e);
        },
    };
    Result::Ok(SynBlock::RuleBlock { name, ops, rules })
}

/// block = var_input | var_output | fuzzify | defuzzify | ruleblock
fn p_block(cur: &mut Cursor) -> (r: Result<SynBlock, SyntaxError>)
    requires
        old(cur).wf(),
    ensures
        final(cur).toks == old(cur).toks,
        final(cur).wf(),
        old(cur).pos <= final(cur).pos,
        r is Ok ==> final(cur).pos > old(cur).pos && syn_block_wf(r->Ok_0),
        (r is Ok) <==> sp_block(abst(old(cur).toks@), old(cur).pos as int) is Some,
        r is Ok ==> Option::Some(final(cur).pos as int) == sp_block(
            abst(old(cur).toks@),
            old(cur).pos as int,
        ),
        r is Ok ==> block_view(r->Ok_0) == sv_block(abst(old(cur).toks@), old(cur).pos as int),
{
    if at_kw(cur, "VAR_INPUT") {
        bump(cur);
        let decls = match p_decl_list(cur) {
            Ok(d) => d,
            Err(e) => {
                return Result::Err(e);
            },
        };
        Result::Ok(SynBlock::VarInput(decls))
    } else if at_kw(cur, "VAR_OUTPUT") {
        bump(cur);
        let decls = match p_decl_list(cur) {
            Ok(d) => d,
            Err(e) => {
                return Result::Err(e);
            },
        };
        Result::Ok(SynBlock::VarOutput(decls))
    } else if at_kw(cur, "FUZZIFY") {
        p_fuzzify(cur)
    } else if at_kw(cur, "DEFUZZIFY") {
        p_defuzzify(cur)
    } else if at_kw(cur, "RULEBLOCK") {
        p_ruleblock(cur)
    } else {
        Result::Err(
            err_here(cur, "VAR_INPUT, VAR_OUTPUT, FUZZIFY, DEFUZZIFY or RULEBLOCK"),
        )
    }
}

/// fcl = function_block | block*
fn p_fcl(cur: &mut Cursor) -> (r: Result<SynFcl, SyntaxError>)
    requires
        old(cur).wf(),
        old(cur).pos == 0,
    ensures
        final(cur).toks == old(cur).toks,
        final(cur).wf(),
        r is Ok ==> syn_fcl_wf(r->Ok_0),
        (r is Ok) <==> sp_fcl(abst(old(cur).toks@)) is Some,
        r is Ok ==> fcl_matches(r->Ok_0, abst(old(cur).toks@)),
{
    if at_kw(cur, "FUNCTION_BLOCK") {
        bump(cur);
        let name = match eat_ident(cur, "a function block name") {
            Ok(s) => s,
            Err(e) => {
                return Result::Err(e);
            },
        };
        let mut blocks: Vec<SynBlock> = Vec::new();
        while !at_kw(cur, "END_FUNCTION_BLOCK")
            invariant
                cur.wf(),
                cur.toks == old(cur).toks,
                tok_kw(abst(cur.toks@), 0, "FUNCTION_BLOCK"@),
                tok_kind(abst(cur.toks@), 1, TokenKind::Ident),
                sp_blocks_end(abst(cur.toks@), 2) == sp_blocks_end(abst(cur.toks@), cur.pos as int),
                sv_blocks_end(abst(cur.toks@), 2) == blocks@.map_values(
                    |b2: SynBlock| block_view(b2),
                ) + sv_blocks_end(abst(cur.toks@), cur.pos as int),
                forall|i: int| 0 <= i < blocks@.len() ==> syn_block_wf(#[trigger] blocks@[i]),
            decreases cur.toks@.len() - cur.pos,
        {
            let ghost p1 = cur.pos as int;
            let ghost blocks0 = blocks@;
            let b = match p_block(cur) {
                Ok(b) => b,
                Err(e) => {
                    return Result::Err(e);
                },
            };
            blocks.push(b);
            proof {
                let tk = abst(cur.toks@);
                assert(blocks@.map_values(|b2: SynBlock| block_view(b2)) =~= blocks0.map_values(
                    |b2: SynBlock| block_view(b2),
                ) + seq![block_view(b)]);
                assert(sv_blocks_end(tk, p1) == seq![sv_block(tk, p1)] + sv_blocks_end(
                    tk,
                    cur.pos as int,
                ));
                assert(blocks0.map_values(|b2: SynBlock| block_view(b2)) + sv_blocks_end(tk, p1)
                    =~= blocks@.map_values(|b2: SynBlock| block_view(b2)) + sv_blocks_end(
                    tk,
                    cur.pos as int,
                ));
            }
        }
        proof {
            assert(blocks@.map_values(|b2: SynBlock| block_view(b2)) + Seq::<BlockV>::empty()
                =~= blocks@.map_values(|b2: SynBlock| block_view(b2)));
        }
        match eat_kw(cur, "END_FUNCTION_BLOCK") {
            Ok(u) => u,
            Err(e) => {
                return Result::Err(e);
            },
        };
        if cur.pos < cur.toks.len() {
            return Result::Err(err_here(cur, "end of input"));
        }
        Result::Ok(SynFcl { name: Some(name), blocks })
    } else {
        let mut blocks: Vec<SynBlock> = Vec::new();
        while cur.pos < cur.toks.len()
            invariant
                cur.wf(),
                cur.toks == old(cur).toks,
                !tok_kw(abst(cur.toks@), 0, "FUNCTION_BLOCK"@),
                sp_blocks_eof(abst(cur.toks@), 0) == sp_blocks_eof(abst(cur.toks@), cur.pos as int),
                sv_blocks_eof(abst(cur.toks@), 0) == blocks@.map_values(
                    |b2: SynBlock| block_view(b2),
                ) + sv_blocks_eof(abst(cur.toks@), cur.pos as int),
                forall|i: int| 0 <= i < blocks@.len() ==> syn_block_wf(#[trigger] blocks@[i]),
            decreases cur.toks@.len() - cur.pos,
        {
            let ghost p1 = cur.pos as int;
            let ghost blocks0 = blocks@;
            let b = match p_block(cur) {
                Ok(b) => b,
                Err(e) => {
                    return Result::Err(e);
                },
            };
            blocks.push(b);
            proof {
                let tk = abst(cur.toks@);
                assert(blocks@.map_values(|b2: SynBlock| block_view(b2)) =~= blocks0.map_values(
                    |b2: SynBlock| block_view(b2),
                ) + seq![block_view(b)]);
                assert(sv_blocks_eof(tk, p1) == seq![sv_block(tk, p1)] + sv_blocks_eof(
                    tk,
                    cur.pos as int,
                ));
                assert(blocks0.map_values(|b2: SynBlock| block_view(b2)) + sv_blocks_eof(tk, p1)
                    =~= blocks@.map_values(|b2: SynBlock| block_view(b2)) + sv_blocks_eof(
                    tk,
                    cur.pos as int,
                ));
            }
        }
        proof {
            assert(blocks@.map_values(|b2: SynBlock| block_view(b2)) + Seq::<BlockV>::empty()
                =~= blocks@.map_values(|b2: SynBlock| block_view(b2)));
        }
        Result::Ok(SynFcl { name: None, blocks })
    }
}

/// Parse a whole FCL source unit (a `FUNCTION_BLOCK ... END_FUNCTION_BLOCK`
/// wrapper, or a bare sequence of blocks) into a syntax tree.
pub fn fcl_parser(input: &str) -> (r: Result<SynFcl, SyntaxError>)
    ensures
        r is Ok ==> syn_fcl_wf(r->Ok_0),
        (r is Ok) <==> (sl_ok(input@, 0) && sp_fcl(sl_tokens(input@, 0)) is Some),
        r is Ok ==> fcl_matches(r->Ok_0, sl_tokens(input@, 0)),
{
    let mut cur = match lex_cursor(input) {
        Ok(c) => c,
        Err(e) => {
            return Result::Err(e);
        },
    };
    p_fcl(&mut cur)
}

/// Entry points for each grammar production, mirroring parsing a single
/// production in isolation. Each tokenizes its input and parses one
/// instance of the production, ignoring any trailing tokens.
pub struct FCLParser;

impl FCLParser {
    /// Parse one `declaration`.
    pub fn parse_declaration(input: &str) -> (r: Result<SynDecl, SyntaxError>)
        ensures
            r is Ok ==> syn_decl_wf(r->Ok_0),
            (r is Ok) <==> (sl_ok(input@, 0) && sp_colon_decl(sl_tokens(input@, 0), 0) is Some),
            r is Ok ==> decl_view(r->Ok_0) == sv_decl(sl_tokens(input@, 0), 0),
    {
        let mut cur = match lex_cursor(input) {
            Ok(c) => c,
            Err(e) => {
                return Result::Err(e);
            },
        };
        p_decl(&mut cur)
    }

    /// Parse one `var_input` block.
    pub fn parse_var_input(input: &str) -> (r: Result<Vec<SynDecl>, SyntaxError>)
        ensures
            r is Ok ==> forall|i: int|
                0 <= i < r->Ok_0@.len() ==> syn_decl_wf(#[trigger] r->Ok_0@[i]),
            (r is Ok) <==> (sl_ok(input@, 0) && tok_kw(sl_tokens(input@, 0), 0, "VAR_INPUT"@)
                && sp_decl_list(sl_tokens(input@, 0), 1) is Some),
            r is Ok ==> r->Ok_0@.map_values(|d: SynDecl| decl_view(d)) == sv_decl_list(
                sl_tokens(input@, 0),
                1,
            ),
    {
        let mut cur = match lex_cursor(input) {
            Ok(c) => c,
            Err(e) => {
                return Result::Err(e);
            },
        };
        match eat_kw(&mut cur, "VAR_INPUT") {
            Ok(u) => u,
            Err(e) => {
                return Result::Err(e);
            },
        };
        p_decl_list(&mut cur)
    }

    /// Parse one `var_output` block.
    pub fn parse_var_output(input: &str) -> (r: Result<Vec<SynDecl>, SyntaxError>)
        ensures
            r is Ok ==> forall|i: int|
                0 <= i < r->Ok_0@.len() ==> syn_decl_wf(#[trigger] r->Ok_0@[i]),
            (r is Ok) <==> (sl_ok(input@, 0) && tok_kw(sl_tokens(input@, 0), 0, "VAR_OUTPUT"@)
                && sp_decl_list(sl_tokens(input@, 0), 1) is Some),
            r is Ok ==> r->Ok_0@.map_values(|d: SynDecl| decl_view(d)) == sv_decl_list(
                sl_tokens(input@, 0),
                1,
            ),
    {
        let mut cur = match lex_cursor(input) {
            Ok(c) => c,
            Err(e) => {
                return Result::Err(e);
            },
        };
        match eat_kw(&mut cur, "VAR_OUTPUT") {
            Ok(u) => u,
            Err(e) => {
                return Result::Err(e);
            },
        };
        p_decl_list(&mut cur)
    }

    /// Parse one `term`.
    pub fn parse_term(input: &str) -> (r: Result<SynTerm, SyntaxError>)
        ensures
            r is Ok ==> syn_term_wf(r->Ok_0),
            (r is Ok) <==> (sl_ok(input@, 0) && sp_term(sl_tokens(input@, 0), 0) is Some),
            r is Ok ==> term_view(r->Ok_0) == sv_term(sl_tokens(input@, 0), 0),
    {
        let mut cur = match lex_cursor(input) {
            Ok(c) => c,
            Err(e) => {
                return Result::Err(e);
            },
        };
        p_term(&mut cur)
    }

    /// Parse one `fuzzify` block.
    pub fn parse_fuzzify(input: &str) -> (r: Result<SynBlock, SyntaxError>)
        ensures
            r is Ok ==> syn_block_wf(r->Ok_0),
            (r is Ok) <==> (sl_ok(input@, 0) && sp_fuzzify(sl_tokens(input@, 0), 0) is Some),
            r is Ok ==> block_view(r->Ok_0) == sv_fuzzify(sl_tokens(input@, 0), 0),
    {
        let mut cur = match lex_cursor(input) {
            Ok(c) => c,
            Err(e) => {
                return Result::Err(e);
            },
        };
        p_fuzzify(&mut cur)
    }

    /// Parse one `defuzzify` block.
    pub fn parse_defuzzify(input: &str) -> (r: Result<SynBlock, SyntaxError>)
        ensures
            r is Ok ==> syn_block_wf(r->Ok_0),
            (r is Ok) <==> (sl_ok(input@, 0) && sp_defuzzify(sl_tokens(input@, 0), 0) is Some),
            r is Ok ==> block_view(r->Ok_0) == sv_defuzzify(sl_tokens(input@, 0), 0),
    {
        let mut cur = match lex_cursor(input) {
            Ok(c) => c,
            Err(e) => {
                return Result::Err(e);
            },
        };
        p_defuzzify(&mut cur)
    }

    /// Parse one `antecedent`.
    pub fn parse_antecedent(input: &str) -> (r: Result<
        (Vec<SynClause>, Vec<Connective>),
        SyntaxError,
    >)
        ensures
            r is Ok ==> r->Ok_0.0@.len() >= 1 && r->Ok_0.1@.len() + 1 == r->Ok_0.0@.len()
                && forall|i: int|
                0 <= i < r->Ok_0.0@.len() ==> syn_clause_wf(#[trigger] r->Ok_0.0@[i]),
            (r is Ok) <==> (sl_ok(input@, 0) && sp_antecedent(sl_tokens(input@, 0), 0) is Some),
            r is Ok ==> r->Ok_0.0@.map_values(|c: SynClause| clause_view(c))
                == sv_antecedent_clauses(sl_tokens(input@, 0), 0),
            r is Ok ==> r->Ok_0.1@ == sv_antecedent_conns(sl_tokens(input@, 0), 0),
    {
        let mut cur = match lex_cursor(input) {
            Ok(c) => c,
            Err(e) => {
                return Result::Err(e);
            },
        };
        p_antecedent(&mut cur)
    }

    /// Parse one `consequent`.
    pub fn parse_consequent(input: &str) -> (r: Result<SynClause, SyntaxError>)
        ensures
            r is Ok ==> syn_clause_wf(r->Ok_0),
            (r is Ok) <==> (sl_ok(input@, 0) && sp_clause(sl_tokens(input@, 0), 0) is Some),
            r is Ok ==> clause_view(r->Ok_0) == sv_clause(sl_tokens(input@, 0), 0),
    {
        let mut cur = match lex_cursor(input) {
            Ok(c) => c,
            Err(e) => {
                return Result::Err(e);
            },
        };
        p_clause(&mut cur)
    }

    /// Parse one `rule`.
    pub fn parse_rule(input: &str) -> (r: Result<SynRule, SyntaxError>)
        ensures
            r is Ok ==> syn_rule_wf(r->Ok_0),
            (r is Ok) <==> (sl_ok(input@, 0) && sp_rule(sl_tokens(input@, 0), 0) is Some),
            r is Ok ==> rule_view(r->Ok_0) == sv_rule(sl_tokens(input@, 0), 0),
    {
        let mut cur = match lex_cursor(input) {
            Ok(c) => c,
            Err(e) => {
                return Result::Err(e);
            },
        };
        p_rule(&mut cur)
    }

    /// Parse an `operators` list.
    pub fn parse_operators(input: &str) -> (r: Result<Vec<SynOpDecl>, SyntaxError>)
        ensures
            r is Ok ==> forall|i: int|
                0 <= i < r->Ok_0@.len() ==> syn_op_decl_wf(#[trigger] r->Ok_0@[i]),
            (r is Ok) <==> (sl_ok(input@, 0) && sp_op_list(sl_tokens(input@, 0), 0) is Some),
            r is Ok ==> r->Ok_0@.map_values(|o: SynOpDecl| op_view(o)) == sv_op_list(
                sl_tokens(input@, 0),
                0,
            ),
    {
        let mut cur = match lex_cursor(input) {
            Ok(c) => c,
            Err(e) => {
                return Result::Err(e);
            },
        };
        p_op_decls(&mut cur)
    }

    /// Parse one `ruleblock`.
    pub fn parse_ruleblock(input: &str) -> (r: Result<SynBlock, SyntaxError>)
        ensures
            r is Ok ==> syn_block_wf(r->Ok_0),
            (r is Ok) <==> (sl_ok(input@, 0) && sp_ruleblock(sl_tokens(input@, 0), 0) is Some),
            r is Ok ==> block_view(r->Ok_0) == sv_ruleblock(sl_tokens(input@, 0), 0),
    {
        let mut cur = match lex_cursor(input) {
            Ok(c) => c,
            Err(e) => {
                return Result::Err(e);
            },
        };
        p_ruleblock(&mut cur)
    }

    /// Parse a whole source unit, as `fcl_parser` does.
    pub fn parse_fcl(input: &str) -> (r: Result<SynFcl, SyntaxError>)
        ensures
            r is Ok ==> syn_fcl_wf(r->Ok_0),
            (r is Ok) <==> (sl_ok(input@, 0) && sp_fcl(sl_tokens(input@, 0)) is Some),
            r is Ok ==> fcl_matches(r->Ok_0, sl_tokens(input@, 0)),
    {
        fcl_parser(input)
    }
}

} // verus!
