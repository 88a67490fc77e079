//! Tokenizer for FCL source text. Splits the input into identifiers,
//! numeric literals and punctuation, skipping whitespace and `//` line
//! comments. Keywords are ordinary identifiers; the parser tells them
//! apart by position.
use vstd::prelude::*;

verus! {

use vstd::string::StrSliceExecFns;
use vstd::string::StringExecFns;
use crate::fuzzy_logic::errors::SyntaxError;

/// The kinds of token the grammar distinguishes.
#[derive(Clone, Copy, Debug, PartialEq, Eq, Structural)]
pub enum TokenKind {
    Ident,
    Number,
    Colon,
    Semicolon,
    Assign,
    LParen,
    RParen,
    Comma,
}

/// One token: its kind, its text, the character range `[lo, hi)` of the
/// input it was read from, and its 1-based source position.
#[derive(Debug)]
pub struct Token {
    pub kind: TokenKind,
    pub text: String,
    pub lo: usize,
    pub hi: usize,
    pub line: usize,
    pub col: usize,
}

pub open spec fn is_digit_c(c: char) -> bool {
    '0' <= c && c <= '9'
}

pub open spec fn is_ident_start_c(c: char) -> bool {
    ('a' <= c && c <= 'z') || ('A' <= c && c <= 'Z') || c == '_'
}

pub open spec fn is_ident_c(c: char) -> bool {
    is_ident_start_c(c) || is_digit_c(c)
}

/// An identifier: a letter or underscore, then letters, digits and
/// underscores.
pub open spec fn ident_shape(s: Seq<char>) -> bool {
    &&& s.len() > 0
    &&& is_ident_start_c(s[0])
    &&& forall|i: int| 0 < i < s.len() ==> is_ident_c(#[trigger] s[i])
}

/// A non-empty run of decimal digits.
pub open spec fn all_digits(s: Seq<char>) -> bool {
    s.len() > 0 && forall|i: int| 0 <= i < s.len() ==> is_digit_c(#[trigger] s[i])
}

/// The unsigned body `b` splits at `k` into digits, a decimal point,
/// and more digits.
pub open spec fn dot_split_at(b: Seq<char>, k: int) -> bool {
    &&& 0 < k < b.len()
    &&& b[k] == '.'
    &&& all_digits(b.take(k))
    &&& all_digits(b.skip(k + 1))
}

/// An unsigned numeric body: digits, optionally split by one decimal
/// point with digits on both sides.
pub open spec fn number_body_shape(b: Seq<char>) -> bool {
    all_digits(b) || exists|k: int| dot_split_at(b, k)
}

/// A numeric literal: an optional minus sign, then digits with an
/// optional fractional part.
pub open spec fn number_shape(s: Seq<char>) -> bool {
    &&& s.len() > 0
    &&& if s[0] == '-' {
        number_body_shape(s.skip(1))
    } else {
        number_body_shape(s)
    }
}

pub open spec fn is_space_c(c: char) -> bool {
    c == ' ' || c == '\t' || c == '\r' || c == '\n'
}

/// First position at or after `i` holding a line break, or the length.
pub open spec fn sl_comment_end(s: Seq<char>, i: int) -> int
    decreases s.len() - i,
{
    if !(0 <= i < s.len()) {
        s.len() as int
    } else if s[i] == '\n' {
        i
    } else {
        sl_comment_end(s, i + 1)
    }
}

/// First position at or after `i` that no longer continues an
/// identifier.
pub open spec fn sl_ident_end(s: Seq<char>, i: int) -> int
    decreases s.len() - i,
{
    if 0 <= i < s.len() && is_ident_c(s[i]) {
        sl_ident_end(s, i + 1)
    } else {
        i
    }
}

/// First position at or after `i` that is no decimal digit.
pub open spec fn sl_digits_end(s: Seq<char>, i: int) -> int
    decreases s.len() - i,
{
    if 0 <= i < s.len() && is_digit_c(s[i]) {
        sl_digits_end(s, i + 1)
    } else {
        i
    }
}

/// Position after the token starting at position `i` (a non-space,
/// non-comment position), or `None` when no token starts there.
pub open spec fn sl_tok_end(s: Seq<char>, i: int) -> Option<int> {
    let c = s[i];
    if c == ';' || c == '(' || c == ')' || c == ',' {
        Option::Some(i + 1)
    } else if c == ':' {
        if i + 1 < s.len() && s[i + 1] == '=' {
            Option::Some(i + 2)
        } else {
            Option::Some(i + 1)
        }
    } else if is_ident_start_c(c) {
        Option::Some(sl_ident_end(s, i + 1))
    } else if is_digit_c(c) || c == '-' {
        sl_number_end(s, i)
    } else {
        Option::None
    }
}

/// Position after the numeric literal starting at `i`, or `None` when
/// a minus sign is not followed by a digit.
pub open spec fn sl_number_end(s: Seq<char>, i: int) -> Option<int> {
    let d0 = if s[i] == '-' {
        i + 1
    } else {
        i
    };
    if d0 < s.len() && is_digit_c(s[d0]) {
        let de = sl_digits_end(s, d0);
        if de < s.len() && de + 1 < s.len() && s[de] == '.' && is_digit_c(s[de + 1]) {
            Option::Some(sl_digits_end(s, de + 1))
        } else {
            Option::Some(de)
        }
    } else {
        Option::None
    }
}

pub proof fn lemma_sl_ident_end_bounds(s: Seq<char>, i: int)
    requires
        0 <= i,
    ensures
        i <= sl_ident_end(s, i),
        sl_ident_end(s, i) <= s.len() || sl_ident_end(s, i) == i,
    decreases s.len() - i,
{
    if 0 <= i < s.len() && is_ident_c(s[i]) {
        lemma_sl_ident_end_bounds(s, i + 1);
    }
}

pub proof fn lemma_sl_digits_end_bounds(s: Seq<char>, i: int)
    requires
        0 <= i,
    ensures
        i <= sl_digits_end(s, i),
        sl_digits_end(s, i) <= s.len() || sl_digits_end(s, i) == i,
    decreases s.len() - i,
{
    if 0 <= i < s.len() && is_digit_c(s[i]) {
        lemma_sl_digits_end_bounds(s, i + 1);
    }
}

pub proof fn lemma_sl_comment_end_bounds(s: Seq<char>, i: int)
    requires
        0 <= i,
    ensures
        sl_comment_end(s, i) <= s.len(),
        i <= s.len() ==> i <= sl_comment_end(s, i),
    decreases s.len() - i,
{
    if 0 <= i < s.len() && s[i] != '\n' {
        lemma_sl_comment_end_bounds(s, i + 1);
    }
}

pub proof fn lemma_sl_tok_end_advance(s: Seq<char>, i: int)
    requires
        0 <= i < s.len(),
    ensures
        sl_tok_end(s, i) matches Option::Some(j) ==> i < j <= s.len(),
{
    lemma_sl_ident_end_bounds(s, i + 1);
    lemma_sl_digits_end_bounds(s, i);
    lemma_sl_digits_end_bounds(s, i + 1);
    if is_digit_c(s[i]) || s[i] == '-' {
        let d0 = if s[i] == '-' {
            i + 1
        } else {
            i
        };
        if d0 < s.len() && is_digit_c(s[d0]) {
            let de = sl_digits_end(s, d0);
            if de < s.len() && de + 1 < s.len() && s[de] == '.' && is_digit_c(s[de + 1]) {
                lemma_sl_digits_end_bounds(s, de + 1);
            }
        }
    }
}

/// The input from position `i` on splits into whitespace, `//`
/// comments and well-formed tokens.
pub open spec fn sl_ok(s: Seq<char>, i: int) -> bool
    decreases s.len() - i,
    when true
    via sl_ok_decreases
{
    if i >= s.len() || i < 0 {
        true
    } else if is_space_c(s[i]) {
        sl_ok(s, i + 1)
    } else if s[i] == '/' {
        if i + 1 < s.len() && s[i + 1] == '/' {
            sl_ok(s, sl_comment_end(s, i + 2))
        } else {
            false
        }
    } else {
        match sl_tok_end(s, i) {
            Option::Some(j) => sl_ok(s, j),
            Option::None => false,
        }
    }
}

#[via_fn]
proof fn sl_ok_decreases(s: Seq<char>, i: int) {
    if 0 <= i < s.len() {
        lemma_sl_comment_end_bounds(s, i + 2);
        lemma_sl_tok_end_advance(s, i);
    }
}

/// The position at which the scan from `i` fails (meaningful where
/// `sl_ok` does not hold).
pub open spec fn sl_fail_pos(s: Seq<char>, i: int) -> int
    decreases s.len() - i,
    when true
    via sl_fail_pos_decreases
{
    if i >= s.len() || i < 0 {
        i
    } else if is_space_c(s[i]) {
        sl_fail_pos(s, i + 1)
    } else if s[i] == '/' {
        if i + 1 < s.len() && s[i + 1] == '/' {
            sl_fail_pos(s, sl_comment_end(s, i + 2))
        } else {
            i
        }
    } else {
        match sl_tok_end(s, i) {
            Option::Some(j) => sl_fail_pos(s, j),
            Option::None => i,
        }
    }
}

#[via_fn]
proof fn sl_fail_pos_decreases(s: Seq<char>, i: int) {
    if 0 <= i < s.len() {
        lemma_sl_comment_end_bounds(s, i + 2);
        lemma_sl_tok_end_advance(s, i);
    }
}

/// A token reduced to what the grammar sees: its kind and its text.
pub struct TokSpec {
    pub kind: TokenKind,
    pub text: Seq<char>,
}

/// The grammar-level reading of a token list.
pub open spec fn abst(toks: Seq<Token>) -> Seq<TokSpec> {
    toks.map_values(|t: Token| TokSpec { kind: t.kind, text: t.text@ })
}

/// The kind of the token starting at position `i`.
pub open spec fn tok_kind_of(s: Seq<char>, i: int) -> TokenKind {
    let c = s[i];
    if c == ';' {
        TokenKind::Semicolon
    } else if c == '(' {
        TokenKind::LParen
    } else if c == ')' {
        TokenKind::RParen
    } else if c == ',' {
        TokenKind::Comma
    } else if c == ':' {
        if i + 1 < s.len() && s[i + 1] == '=' {
            TokenKind::Assign
        } else {
            TokenKind::Colon
        }
    } else if is_ident_start_c(c) {
        TokenKind::Ident
    } else {
        TokenKind::Number
    }
}

pub open spec fn mk_tok(s: Seq<char>, i: int, j: int) -> TokSpec {
    TokSpec { kind: tok_kind_of(s, i), text: s.subrange(i, j) }
}

/// The token sequence of the input from position `i` on (meaningful
/// where `sl_ok` holds).
pub open spec fn sl_tokens(s: Seq<char>, i: int) -> Seq<TokSpec>
    decreases s.len() - i,
    when true
    via sl_tokens_decreases
{
    if i >= s.len() || i < 0 {
        Seq::empty()
    } else if is_space_c(s[i]) {
        sl_tokens(s, i + 1)
    } else if s[i] == '/' {
        if i + 1 < s.len() && s[i + 1] == '/' {
            sl_tokens(s, sl_comment_end(s, i + 2))
        } else {
            Seq::empty()
        }
    } else {
        match sl_tok_end(s, i) {
            Option::Some(j) => seq![mk_tok(s, i, j)] + sl_tokens(s, j),
            Option::None => Seq::empty(),
        }
    }
}

#[via_fn]
proof fn sl_tokens_decreases(s: Seq<char>, i: int) {
    if 0 <= i < s.len() {
        lemma_sl_comment_end_bounds(s, i + 2);
        lemma_sl_tok_end_advance(s, i);
    }
}

/// Number of line breaks strictly before position `i`.
pub open spec fn nl_count(s: Seq<char>, i: int) -> int
    decreases i,
{
    if i <= 0 {
        0
    } else {
        nl_count(s, i - 1) + (if 0 <= i - 1 < s.len() && s[i - 1] == '\n' {
            1int
        } else {
            0int
        })
    }
}

/// 1-based line of position `i`.
pub open spec fn line_at(s: Seq<char>, i: int) -> int {
    1 + nl_count(s, i)
}

/// Start position of the line containing position `i`.
pub open spec fn line_start(s: Seq<char>, i: int) -> int
    decreases i,
{
    if i <= 0 {
        0
    } else if 0 <= i - 1 < s.len() && s[i - 1] == '\n' {
        i
    } else {
        line_start(s, i - 1)
    }
}

/// 1-based column of position `i`.
pub open spec fn col_at(s: Seq<char>, i: int) -> int {
    i - line_start(s, i) + 1
}

/// Every token is a well-shaped reading of its character range, and
/// carries the source position of its first character.
pub open spec fn token_wf(t: Token, s: Seq<char>) -> bool {
    &&& t.lo <= t.hi <= s.len()
    &&& t.text@ == s.subrange(t.lo as int, t.hi as int)
    &&& t.line as int == line_at(s, t.lo as int)
    &&& t.col as int == col_at(s, t.lo as int)
    &&& match t.kind {
        TokenKind::Ident => ident_shape(t.text@),
        TokenKind::Number => number_shape(t.text@),
        _ => t.text@.len() > 0,
    }
}

pub open spec fn tokens_wf(toks: Seq<Token>, s: Seq<char>) -> bool {
    forall|k: int| 0 <= k < toks.len() ==> token_wf(#[trigger] toks[k], s)
}

fn is_digit_exec(c: char) -> (r: bool)
    ensures
        r == is_digit_c(c),
{
    '0' <= c && c <= '9'
}

fn is_ident_start_exec(c: char) -> (r: bool)
    ensures
        r == is_ident_start_c(c),
{
    ('a' <= c && c <= 'z') || ('A' <= c && c <= 'Z') || c == '_'
}

fn is_ident_exec(c: char) -> (r: bool)
    ensures
        r == is_ident_c(c),
{
    is_ident_start_exec(c) || is_digit_exec(c)
}

/// The 1-based line and column of position `lo`, computed by a scan.
fn pos_of(s: &str, lo: usize) -> (r: (usize, usize))
    requires
        lo < s@.len(),
        lo < usize::MAX,
    ensures
        r.0 as int == line_at(s@, lo as int),
        r.1 as int == col_at(s@, lo as int),
{
    let mut line: usize = 1;
    let mut col: usize = 1;
    let mut k: usize = 0;
    while k < lo
        invariant
            lo < s@.len(),
            lo < usize::MAX,
            0 <= k <= lo,
            line as int == line_at(s@, k as int),
            col as int == col_at(s@, k as int),
            line <= k + 1,
            col <= k + 1,
        decreases lo - k,
    {
        if s.get_char(k) == '\n' {
            line = line + 1;
            col = 1;
        } else {
            col = col + 1;
        }
        k = k + 1;
    }
    (line, col)
}

fn syn_err(line: usize, col: usize, expected: &str, found: &str) -> (r: SyntaxError)
    ensures
        r.line == line,
        r.col == col,
{
    SyntaxError {
        line,
        col,
        expected: expected.to_owned(),
        found: found.to_owned(),
    }
}

/// Split `input` into tokens. On success every token is well shaped;
/// an unexpected character is reported with its line and column.
#[verifier::rlimit(60)]
pub fn tokenize(input: &str) -> (r: Result<Vec<Token>, SyntaxError>)
    ensures
        r is Ok ==> tokens_wf(r->Ok_0@, input@),
        (r is Ok) <==> sl_ok(input@, 0),
        r is Ok ==> abst(r->Ok_0@) == sl_tokens(input@, 0),
        r is Err ==> r->Err_0.line as int == line_at(input@, sl_fail_pos(input@, 0))
            && r->Err_0.col as int == col_at(input@, sl_fail_pos(input@, 0)),
{
    let n = input.unicode_len();
    let mut toks: Vec<Token> = Vec::new();
    let mut i: usize = 0;
    proof {
        assert(abst(toks@) + sl_tokens(input@, 0) =~= sl_tokens(input@, 0));
    }
    while i < n
        invariant
            n == input@.len(),
            i <= n,
            sl_ok(input@, 0) == sl_ok(input@, i as int),
            sl_fail_pos(input@, 0) == sl_fail_pos(input@, i as int),
            abst(toks@) + sl_tokens(input@, i as int) == sl_tokens(input@, 0),
            tokens_wf(toks@, input@),
        decreases n - i,
    {
        let c = input.get_char(i);
        if c == ' ' || c == '\t' || c == '\r' || c == '\n' {
            i = i + 1;
        } else if c == '/' {
            if i + 1 < n && input.get_char(i + 1) == '/' {
                let ghost i0 = i;
                i = i + 2;
                while i < n && input.get_char(i) != '\n'
                    invariant
                        n == input@.len(),
                        i <= n,
                        i0 + 2 <= i,
                        sl_comment_end(input@, i0 + 2) == sl_comment_end(input@, i as int),
                    decreases n - i,
                {
                    i = i + 1;
                }
                proof {
                    assert(sl_comment_end(input@, i0 + 2) == i as int);
                }
            } else {
                let (eline, ecol) = pos_of(input, i);
                return Result::Err(syn_err(eline, ecol, "a token", "/"));
            }
        } else if c == ';' || c == '(' || c == ')' || c == ',' {
            let kind = if c == ';' {
                TokenKind::Semicolon
            } else if c == '(' {
                TokenKind::LParen
            } else if c == ')' {
                TokenKind::RParen
            } else {
                TokenKind::Comma
            };
            let text = input.substring_char(i, i + 1).to_owned();
            let (tline, tcol) = pos_of(input, i);
            let ghost toks0 = toks@;
            toks.push(Token { kind, text, lo: i, hi: i + 1, line: tline, col: tcol });
            proof {
                let s = input@;
                let start = i as int;
                assert(sl_tok_end(s, start) == Option::Some(start + 1));
                assert(abst(toks@) =~= abst(toks0) + seq![mk_tok(s, start, start + 1)]);
                assert(abst(toks@) + sl_tokens(s, start + 1) =~= abst(toks0) + sl_tokens(
                    s,
                    start,
                ));
            }
            i = i + 1;
        } else if c == ':' {
            if i + 1 < n && input.get_char(i + 1) == '=' {
                let text = input.substring_char(i, i + 2).to_owned();
                let (tline, tcol) = pos_of(input, i);
                let ghost toks0 = toks@;
                toks.push(
                    Token { kind: TokenKind::Assign, text, lo: i, hi: i + 2, line: tline, col: tcol },
                );
                proof {
                    let s = input@;
                    let start = i as int;
                    assert(sl_tok_end(s, start) == Option::Some(start + 2));
                    assert(abst(toks@) =~= abst(toks0) + seq![mk_tok(s, start, start + 2)]);
                    assert(abst(toks@) + sl_tokens(s, start + 2) =~= abst(toks0) + sl_tokens(
                        s,
                        start,
                    ));
                }
                i = i + 2;
            } else {
                let text = input.substring_char(i, i + 1).to_owned();
                let (tline, tcol) = pos_of(input, i);
                let ghost toks0 = toks@;
                toks.push(
                    Token { kind: TokenKind::Colon, text, lo: i, hi: i + 1, line: tline, col: tcol },
                );
                proof {
                    let s = input@;
                    let start = i as int;
                    assert(sl_tok_end(s, start) == Option::Some(start + 1));
                    assert(abst(toks@) =~= abst(toks0) + seq![mk_tok(s, start, start + 1)]);
                    assert(abst(toks@) + sl_tokens(s, start + 1) =~= abst(toks0) + sl_tokens(
                        s,
                        start,
                    ));
                }
                i = i + 1;
            }
        } else if is_ident_start_exec(c) {
            let lo = i;
            i = i + 1;
            while i < n && is_ident_exec(input.get_char(i))
                invariant
                    n == input@.len(),
                    lo < i <= n,
                    lo < n,
                    is_ident_start_c(input@[lo as int]),
                    sl_ident_end(input@, lo + 1) == sl_ident_end(input@, i as int),
                    forall|k: int| lo < k < i ==> is_ident_c(#[trigger] input@[k]),
                decreases n - i,
            {
                i = i + 1;
            }
            proof {
                assert(sl_ident_end(input@, lo + 1) == i as int);
            }
            let text = input.substring_char(lo, i).to_owned();
            proof {
                assert(ident_shape(input@.subrange(lo as int, i as int)));
            }
            let (tline, tcol) = pos_of(input, lo);
            let ghost toks0 = toks@;
            toks.push(Token { kind: TokenKind::Ident, text, lo, hi: i, line: tline, col: tcol });
            proof {
                let s = input@;
                let start = lo as int;
                assert(tok_kind_of(s, start) == TokenKind::Ident);
                assert(sl_tok_end(s, start) == Option::Some(i as int));
                assert(abst(toks@) =~= abst(toks0) + seq![mk_tok(s, start, i as int)]);
                assert(abst(toks@) + sl_tokens(s, i as int) =~= abst(toks0) + sl_tokens(
                    s,
                    start,
                ));
            }
        } else if is_digit_exec(c) || c == '-' {
            let lo = i;
            if c == '-' {
                i = i + 1;
            }
            if i >= n || !is_digit_exec(input.get_char(i)) {
                let (eline, ecol) = pos_of(input, lo);
                return Result::Err(syn_err(eline, ecol, "a digit", "-"));
            }
            let int_start = i;
            while i < n && is_digit_exec(input.get_char(i))
                invariant
                    n == input@.len(),
                    int_start <= i <= n,
                    int_start < n,
                    is_digit_c(input@[int_start as int]),
                    sl_digits_end(input@, int_start as int) == sl_digits_end(input@, i as int),
                    forall|k: int| int_start <= k < i ==> is_digit_c(#[trigger] input@[k]),
                decreases n - i,
            {
                i = i + 1;
            }
            proof {
                assert(sl_digits_end(input@, int_start as int) == i as int);
            }
            assert(i > int_start);
            let ghost int_end = i as int;
            let ghost mut dot: int = -1;
            if i < n && i + 1 < n && input.get_char(i) == '.' && is_digit_exec(input.get_char(i + 1)) {
                proof {
                    dot = i as int;
                }
                let frac_start = i + 1;
                i = i + 1;
                while i < n && is_digit_exec(input.get_char(i))
                    invariant
                        n == input@.len(),
                        frac_start <= i <= n,
                        frac_start < n,
                        is_digit_c(input@[frac_start as int]),
                        sl_digits_end(input@, frac_start as int) == sl_digits_end(
                            input@,
                            i as int,
                        ),
                        forall|k: int| frac_start <= k < i ==> is_digit_c(#[trigger] input@[k]),
                    decreases n - i,
                {
                    i = i + 1;
                }
                proof {
                    assert(sl_digits_end(input@, frac_start as int) == i as int);
                }
                assert(i > frac_start);
            }
            let text = input.substring_char(lo, i).to_owned();
            proof {
                let s = input@.subrange(lo as int, i as int);
                assert(s.len() > 0);
                assert(s[0] == input@[lo as int]);
                let b = if s[0] == '-' {
                    s.skip(1)
                } else {
                    s
                };
                let b0 = int_start as int;
                if (lo as int) < (int_start as int) {
                    assert(s[0] == '-');
                } else {
                    assert(is_digit_c(s[0]));
                    assert(s[0] != '-');
                }
                assert(b =~= input@.subrange(b0, i as int));
                if dot < 0 {
                    assert(all_digits(b));
                } else {
                    let k = dot - b0;
                    assert(b.take(k) =~= input@.subrange(b0, dot));
                    assert(b.skip(k + 1) =~= input@.subrange(dot + 1, i as int));
                    assert(dot_split_at(b, k));
                }
                assert(number_body_shape(b));
                assert(number_shape(s));
            }
            let (tline, tcol) = pos_of(input, lo);
            let ghost toks0 = toks@;
            toks.push(Token { kind: TokenKind::Number, text, lo, hi: i, line: tline, col: tcol });
            proof {
                let s = input@;
                let start = lo as int;
                assert(tok_kind_of(s, start) == TokenKind::Number);
                assert(sl_number_end(s, start) == Option::Some(i as int)) by {
                    assert(sl_digits_end(s, int_start as int) == int_end);
                    if dot >= 0 {
                        assert(sl_digits_end(s, dot + 1) == i as int);
                    }
                }
                assert(sl_tok_end(s, start) == Option::Some(i as int));
                assert(abst(toks@) =~= abst(toks0) + seq![mk_tok(s, start, i as int)]);
                assert(abst(toks@) + sl_tokens(s, i as int) =~= abst(toks0) + sl_tokens(
                    s,
                    start,
                ));
            }
        } else {
            let found = input.substring_char(i, i + 1).to_owned();
            let (eline, ecol) = pos_of(input, i);
            return Result::Err(SyntaxError {
                line: eline,
                col: ecol,
                expected: "a token".to_owned(),
                found,
            });
        }
    }
    proof {
        assert(sl_tokens(input@, n as int) =~= Seq::<TokSpec>::empty());
        assert(abst(toks@) =~= abst(toks@) + sl_tokens(input@, n as int));
    }
    Result::Ok(toks)
}

} // verus!
