//! The reader of the term language: from the characters of a program to
//! its terms.

use vstd::prelude::*;
use vstd::string::StringExecFns;
use std::rc::Rc;
use crate::jerror::JErrorEntry;
use crate::jonla_syntax::{
    alphabetic, decimal, in_run, is_digit, name_at, number_at, run_end, symbol_text, text_at,
    Expected, Failure, Form, Reading, Run, Symbol, Track,
};
use crate::lambday::{share_terms, LambdayTerm, Term};
use crate::text::to_chars;

verus! {

/// `char::is_alphabetic` of std answers whether a character has the
/// Unicode property Alphabetic; `alphabetic` is the name of that answer.
pub assume_specification[ char::is_alphabetic ](c: char) -> (b: bool)
    ensures
        b == alphabetic(c),
;

/// A failure: a position and what was expected there.
#[derive(Debug, Clone, Copy, PartialEq, Eq)]
pub struct ParseFail {
    pub pos: usize,
    pub expected: Expected,
}

/// What was read: the result, the position after it, and the furthest
/// failure among attempts that were given up on the way.
#[derive(Debug, PartialEq, Eq)]
pub struct ParseSuccess<O> {
    pub result: O,
    pub best_error: Option<ParseFail>,
    pub pos: usize,
}

impl View for ParseFail {
    type V = Failure;

    open spec fn view(&self) -> Failure {
        Failure { pos: self.pos as int, expected: self.expected }
    }
}

/// An optional failure as a mathematical one.
pub open spec fn lift_fail(f: Option<ParseFail>) -> Option<Failure> {
    match f {
        Some(x) => Some(x@),
        None => None,
    }
}

/// The further of two failures, the first one on a tie.
pub fn furthest_fail(a: Option<ParseFail>, b: Option<ParseFail>) -> (r: Option<ParseFail>)
    ensures
        lift_fail(r) == crate::jonla_syntax::furthest(lift_fail(a), lift_fail(b)),
{
    match (a, b) {
        (None, _) => b,
        (_, None) => a,
        (Some(x), Some(y)) => if y.pos > x.pos { b } else { a },
    }
}

/// Whether `c` belongs to runs of `kind`.
pub fn char_in_run(kind: Run, c: char) -> (b: bool)
    ensures
        b == in_run(kind, c),
{
    match kind {
        Run::Space => c == ' ' || c == '\t' || c == '\n' || c == '\r',
        Run::Letter => c.is_alphabetic(),
        Run::Digit => '0' <= c && c <= '9',
    }
}

/// What `run_end` gives: a position from `pos` on, within the input
/// where `pos` is; the characters up to it belong to the run.
pub proof fn lemma_run_end(input: Seq<char>, pos: int, kind: Run)
    ensures
        pos <= run_end(input, pos, kind),
        run_end(input, pos, kind) <= input.len() || run_end(input, pos, kind) == pos,
        forall|j: int| pos <= j < run_end(input, pos, kind) ==> 0 <= j < input.len() && in_run(kind, input[j]),
        !(0 <= run_end(input, pos, kind) < input.len() && in_run(kind, input[run_end(input, pos, kind)])),
    decreases input.len() - pos,
{
    if 0 <= pos < input.len() && in_run(kind, input[pos]) {
        lemma_run_end(input, pos + 1, kind);
    }
}

/// Where the longest run of characters of `kind` from `pos` ends.
pub fn scan(src: &Vec<char>, pos: usize, kind: Run) -> (end: usize)
    ensures
        end == run_end(src@, pos as int, kind),
        pos <= end,
        end <= src@.len() || end == pos,
{
    let mut end = pos;
    while end < src.len() && char_in_run(kind, src[end])
        invariant
            pos <= end,
            end <= src@.len() || end == pos,
            run_end(src@, end as int, kind) == run_end(src@, pos as int, kind),
        decreases src@.len() - end,
    {
        end += 1;
    }
    end
}

/// The text of a symbol, as a string.
pub open spec fn symbol_literal(s: Symbol) -> &'static str {
    match s {
        Symbol::ProdType => "#pt",
        Symbol::ProdConstr => "#pc",
        Symbol::ProdDestr => "#pd",
        Symbol::SumType => "#st",
        Symbol::SumConstr => "#sc",
        Symbol::SumDestr => "#sd",
        Symbol::FunType => "#ft",
        Symbol::FunConstr => "#fc",
        Symbol::FunDestr => "#fd",
        Symbol::TypeType => "#tt",
        Symbol::Open => "(",
        Symbol::Close => ")",
        Symbol::Arrow => "->",
        Symbol::Colon => ":",
    }
}

/// The text of a symbol.
pub fn symbol_str(s: Symbol) -> (r: &'static str)
    ensures
        r == symbol_literal(s),
        r@ == symbol_text(s),
        0 < r@.len() <= 3,
{
    proof {
        reveal_strlit("#pt");
        reveal_strlit("#pc");
        reveal_strlit("#pd");
        reveal_strlit("#st");
        reveal_strlit("#sc");
        reveal_strlit("#sd");
        reveal_strlit("#ft");
        reveal_strlit("#fc");
        reveal_strlit("#fd");
        reveal_strlit("#tt");
        reveal_strlit("(");
        reveal_strlit(")");
        reveal_strlit("->");
        reveal_strlit(":");
    }
    match s {
        Symbol::ProdType => "#pt",
        Symbol::ProdConstr => "#pc",
        Symbol::ProdDestr => "#pd",
        Symbol::SumType => "#st",
        Symbol::SumConstr => "#sc",
        Symbol::SumDestr => "#sd",
        Symbol::FunType => "#ft",
        Symbol::FunConstr => "#fc",
        Symbol::FunDestr => "#fd",
        Symbol::TypeType => "#tt",
        Symbol::Open => "(",
        Symbol::Close => ")",
        Symbol::Arrow => "->",
        Symbol::Colon => ":",
    }
}

/// Whether the input holds `text` at `pos`.
pub fn exact_str(src: &Vec<char>, pos: usize, text: &str) -> (b: bool)
    ensures
        b == text_at(src@, pos as int, text@),
{
    let want = to_chars(text);
    if want.len() > src.len() || pos > src.len() - want.len() {
        return false;
    }
    let mut k: usize = 0;
    while k < want.len()
        invariant
            k <= want@.len(),
            want@ == text@,
            pos + want@.len() <= src@.len() <= usize::MAX,
            forall|j: int| 0 <= j < k ==> src@[pos + j] == want@[j],
        decreases want@.len() - k,
    {
        if src[pos + k] != want[k] {
            proof {
                assert(src@.subrange(pos as int, pos + text@.len())[k as int] == src@[pos + k]);
            }
            return false;
        }
        k += 1;
    }
    proof {
        assert(src@.subrange(pos as int, pos + text@.len()) =~= text@);
    }
    true
}

/// A longer run of digits writes a number that is no smaller.
pub proof fn lemma_decimal_grows(digits: Seq<char>, k: int)
    requires
        0 <= k <= digits.len(),
        forall|j: int| 0 <= j < digits.len() ==> is_digit(#[trigger] digits[j]),
    ensures
        decimal(digits.take(k)) <= decimal(digits),
    decreases digits.len() - k,
{
    if k < digits.len() {
        lemma_decimal_grows(digits, k + 1);
        assert(digits.take(k + 1).drop_last() =~= digits.take(k));
        assert(digits.take(k + 1).last() == digits[k]);
    } else {
        assert(digits.take(k) =~= digits);
    }
}

/// Reads a name at `pos`: the longest run of letters there, which has to
/// hold one letter at least.
pub fn parse_name(src: &Vec<char>, pos: usize) -> (r: Result<ParseSuccess<String>, ParseFail>)
    ensures
        match name_at(src@, pos as int) {
            Some((name, end)) => r matches Ok(s) && s.result@ == name && s.pos == end && s.best_error is None,
            None => r == Err::<ParseSuccess<String>, ParseFail>(ParseFail { pos, expected: Expected::Name }),
        },
{
    let end = scan(src, pos, Run::Letter);
    if end == pos {
        return Err(ParseFail { pos, expected: Expected::Name });
    }
    let mut name = String::new();
    let mut i: usize = pos;
    while i < end
        invariant
            pos <= i <= end <= src@.len(),
            name@ == src@.subrange(pos as int, i as int),
        decreases end - i,
    {
        name.push(src[i]);
        proof {
            assert(src@.subrange(pos as int, i + 1) =~= src@.subrange(pos as int, i as int).push(src@[i as int]));
        }
        i += 1;
    }
    Ok(ParseSuccess { result: name, best_error: None, pos: end })
}

/// Reads a number at `pos`: the longest run of decimal digits there,
/// which has to hold one digit at least and write a number that a machine
/// word holds.
pub fn parse_usize(src: &Vec<char>, pos: usize) -> (r: Result<ParseSuccess<usize>, ParseFail>)
    ensures
        match number_at(src@, pos as int) {
            Some((n, end)) => r == Ok::<ParseSuccess<usize>, ParseFail>(
                ParseSuccess { result: n as usize, best_error: None, pos: end as usize },
            ),
            None => r == Err::<ParseSuccess<usize>, ParseFail>(ParseFail { pos, expected: Expected::Number }),
        },
{
    let end = scan(src, pos, Run::Digit);
    if end == pos {
        return Err(ParseFail { pos, expected: Expected::Number });
    }
    proof {
        lemma_run_end(src@, pos as int, Run::Digit);
    }
    let ghost digits = src@.subrange(pos as int, end as int);
    let mut value: usize = 0;
    let mut i: usize = pos;
    while i < end
        invariant
            pos <= i <= end <= src@.len(),
            pos < end,
            end == run_end(src@, pos as int, Run::Digit),
            digits == src@.subrange(pos as int, end as int),
            forall|j: int| 0 <= j < digits.len() ==> is_digit(#[trigger] digits[j]),
            value == decimal(digits.take(i - pos)),
        decreases end - i,
    {
        let c = src[i];
        proof {
            assert(digits[i - pos] == c);
            assert(digits.take(i - pos + 1).drop_last() =~= digits.take(i - pos));
            assert(digits.take(i - pos + 1).last() == c);
            lemma_decimal_grows(digits, i - pos + 1);
            assert(decimal(digits.take(i - pos + 1)) == value * 10 + (c as int - '0' as int));
        }
        let digit: usize = (c as u32 - '0' as u32) as usize;
        let next = match value.checked_mul(10) {
            Some(tens) => tens.checked_add(digit),
            None => None,
        };
        match next {
            Some(v) => {
                value = v;
            },
            None => {
                return Err(ParseFail { pos, expected: Expected::Number });
            },
        }
        i += 1;
    }
    proof {
        assert(digits.take(end - pos) =~= digits);
    }
    Ok(ParseSuccess { result: value, best_error: None, pos: end })
}

/// The state of a line of steps.
#[derive(Clone, Copy)]
struct Cursor {
    /// The position reached.
    pos: usize,
    /// The furthest failure among attempts that were given up.
    best: Option<ParseFail>,
    /// The failure of the line, once a step has failed.
    failed: Option<ParseFail>,
}

impl View for Cursor {
    type V = Track;

    closed spec fn view(&self) -> Track {
        Track { pos: self.pos as int, best: lift_fail(self.best), failed: lift_fail(self.failed) }
    }
}

/// Whether `r` is the reading `want`, or the failure `want`.
pub open spec fn reads_as(
    r: Result<ParseSuccess<LambdayTerm>, ParseFail>,
    want: Result<Reading<Term>, Failure>,
) -> bool {
    match (r, want) {
        (Ok(s), Ok(w)) => s.result@ == w.result && s.pos == w.pos && lift_fail(s.best_error) == w.best,
        (Err(f), Err(w)) => f@ == w,
        _ => false,
    }
}

/// What a step read, as a mathematical value.
pub open spec fn term_read(t: Option<LambdayTerm>) -> Option<Term> {
    match t {
        Some(x) => Some(x@),
        None => None,
    }
}

/// What a step read, as a mathematical value.
pub open spec fn terms_read(t: Option<Vec<Rc<LambdayTerm>>>) -> Option<Seq<Term>> {
    match t {
        Some(x) => Some(crate::lambday::terms_of(x@, x@.len() as int)),
        None => None,
    }
}

/// What a step read, as a mathematical value.
pub open spec fn name_read(t: Option<String>) -> Option<Seq<char>> {
    match t {
        Some(x) => Some(x@),
        None => None,
    }
}

/// What a step read, as a mathematical value.
pub open spec fn number_read(t: Option<usize>) -> Option<int> {
    match t {
        Some(x) => Some(x as int),
        None => None,
    }
}

/// The cursor after a step failed at `pos` wanting `expected`.
fn cursor_failed(c: Cursor, pos: usize, expected: Expected) -> (r: Cursor)
    ensures
        r@ == crate::jonla_syntax::track_failed(c@, pos as int, expected),
        r.failed is Some,
{
    Cursor { pos: c.pos, best: c.best, failed: furthest_fail(c.best, Some(ParseFail { pos, expected })) }
}

/// Reads a symbol after white space.
fn read_symbol(src: &Vec<char>, c: Cursor, sym: Symbol) -> (r: Cursor)
    ensures
        r@ == crate::jonla_syntax::step_symbol(src@, c@, sym),
        r.failed is None ==> c.failed is None && c.pos < r.pos <= src@.len(),
{
    reveal(crate::jonla_syntax::step_symbol);
    if c.failed.is_some() {
        return c;
    }
    let p = scan(src, c.pos, Run::Space);
    let text = symbol_str(sym);
    if exact_str(src, p, text) {
        let len = text.unicode_len();
        assert(p + len <= src.len());
        Cursor { pos: p + len, best: c.best, failed: None }
    } else {
        cursor_failed(c, p, Expected::Symbol(sym))
    }
}

/// Reads a name after white space.
fn read_name(src: &Vec<char>, c: Cursor) -> (r: (Option<String>, Cursor))
    ensures
        (name_read(r.0), r.1@) == crate::jonla_syntax::step_name(src@, c@),
        r.1.failed is None ==> c.failed is None && c.pos < r.1.pos <= src@.len() && r.0 is Some,
{
    reveal(crate::jonla_syntax::step_name);
    if c.failed.is_some() {
        return (None, c);
    }
    let p = scan(src, c.pos, Run::Space);
    proof {
        lemma_run_end(src@, p as int, Run::Letter);
    }
    match parse_name(src, p) {
        Ok(s) => (Some(s.result), Cursor { pos: s.pos, best: c.best, failed: None }),
        Err(_) => (None, cursor_failed(c, p, Expected::Name)),
    }
}

/// Reads a number after white space.
fn read_number(src: &Vec<char>, c: Cursor) -> (r: (Option<usize>, Cursor))
    ensures
        (number_read(r.0), r.1@) == crate::jonla_syntax::step_number(src@, c@),
        r.1.failed is None ==> c.failed is None && c.pos < r.1.pos <= src@.len() && r.0 is Some,
{
    reveal(crate::jonla_syntax::step_number);
    if c.failed.is_some() {
        return (None, c);
    }
    let p = scan(src, c.pos, Run::Space);
    proof {
        lemma_run_end(src@, p as int, Run::Digit);
        if number_at(src@, p as int) is Some {
            let (n, e) = number_at(src@, p as int)->0;
            assert(0 <= n <= usize::MAX && 0 <= e <= src.len());
        }
    }
    match parse_usize(src, p) {
        Ok(s) => (Some(s.result), Cursor { pos: s.pos, best: c.best, failed: None }),
        Err(_) => (None, cursor_failed(c, p, Expected::Number)),
    }
}

/// Reads a term within a line that started at `start` and has moved on
/// since.
fn read_term(src: &Vec<char>, c: Cursor, Ghost(start): Ghost<int>) -> (r: (Option<LambdayTerm>, Cursor))
    requires
        c.failed is None ==> start < c.pos <= src@.len(),
    ensures
        (term_read(r.0), r.1@) == crate::jonla_syntax::step_term(src@, c@, start),
        r.1.failed is None ==> c.failed is None && c.pos <= r.1.pos <= src@.len() && r.0 is Some,
    decreases src@.len() - start, 0int, 0int,
{
    if c.failed.is_some() {
        return (None, c);
    }
    match parse_jonla_term(src, c.pos) {
        Ok(s) => (Some(s.result), Cursor { pos: s.pos, best: furthest_fail(c.best, s.best_error), failed: None }),
        Err(f) => (None, Cursor { pos: c.pos, best: c.best, failed: furthest_fail(c.best, Some(f)) }),
    }
}

/// Reads terms from `pos` for as long as there is one.
fn read_terms_from(src: &Vec<char>, pos: usize, best: Option<ParseFail>, Ghost(start): Ghost<int>) -> (r:
    ParseSuccess<Vec<LambdayTerm>>)
    requires
        start < pos <= src@.len(),
    ensures
        crate::jonla_syntax::terms_from(src@, pos as int, lift_fail(best), Seq::empty(), start) == (Reading {
            result: crate::lambday::term_list(r.result@, r.result@.len() as int),
            pos: r.pos as int,
            best: lift_fail(r.best_error),
        }),
        pos <= r.pos <= src@.len(),
    decreases src@.len() - start, 1int, 0int,
{
    let mut terms: Vec<LambdayTerm> = Vec::new();
    let mut at: usize = pos;
    let mut far: Option<ParseFail> = best;
    let ghost want = crate::jonla_syntax::terms_from(src@, pos as int, lift_fail(best), Seq::empty(), start);
    loop
        invariant
            start < pos <= at <= src@.len(),
            want == crate::jonla_syntax::terms_from(src@, pos as int, lift_fail(best), Seq::empty(), start),
            crate::jonla_syntax::terms_from(
                src@,
                at as int,
                lift_fail(far),
                crate::lambday::term_list(terms@, terms@.len() as int),
                start,
            ) == want,
        decreases src@.len() - at,
    {
        match parse_jonla_term(src, at) {
            Ok(s) => {
                proof {
                    crate::lambday::lemma_term_list_push(terms@, s.result);
                }
                terms.push(s.result);
                far = furthest_fail(far, s.best_error);
                at = s.pos;
            },
            Err(f) => {
                return ParseSuccess { result: terms, best_error: furthest_fail(far, Some(f)), pos: at };
            },
        }
    }
}

/// Reads a list of terms within a line that started at `start` and has
/// moved on since.
fn read_terms(src: &Vec<char>, c: Cursor, Ghost(start): Ghost<int>) -> (r: (Option<Vec<Rc<LambdayTerm>>>, Cursor))
    requires
        c.failed is None ==> start < c.pos <= src@.len(),
    ensures
        (terms_read(r.0), r.1@) == crate::jonla_syntax::step_terms(src@, c@, start),
        r.1.failed is None ==> c.failed is None && c.pos <= r.1.pos <= src@.len() && r.0 is Some,
    decreases src@.len() - start, 2int, 0int,
{
    if c.failed.is_some() {
        return (None, c);
    }
    let s = read_terms_from(src, c.pos, c.best, Ghost(start));
    (Some(share_terms(s.result)), Cursor { pos: s.pos, best: s.best_error, failed: None })
}

/// Reads a term at `pos`: white space and then one of the forms of the
/// language, tried in their order. The term's region runs from `pos` to
/// the end of its last piece. Where no form can be read, the failure is
/// the one that got furthest.
pub fn parse_jonla_term(src: &Vec<char>, pos: usize) -> (r: Result<ParseSuccess<LambdayTerm>, ParseFail>)
    ensures
        reads_as(r, crate::jonla_syntax::term_at(src@, pos as int)),
        r matches Ok(s) ==> pos < s.pos <= src@.len(),
    decreases src@.len() - pos, 7int, 0int,
{
    parse_lamday_term(src, pos)
}

/// The form with number `k` in the order of trial.
fn form_number(k: usize) -> (f: Form)
    ensures
        f == crate::jonla_syntax::form_no(k as int),
{
    if k == 0 {
        Form::ProdType
    } else if k == 1 {
        Form::ProdConstr
    } else if k == 2 {
        Form::ProdDestr
    } else if k == 3 {
        Form::SumType
    } else if k == 4 {
        Form::SumConstr
    } else if k == 5 {
        Form::SumDestr
    } else if k == 6 {
        Form::FunType
    } else if k == 7 {
        Form::FunConstr
    } else if k == 8 {
        Form::FunDestr
    } else if k == 9 {
        Form::TypeType
    } else {
        Form::Var
    }
}

/// Reads a term at `pos`, trying the forms in their order; see
/// `parse_jonla_term`.
pub fn parse_lamday_term(src: &Vec<char>, pos: usize) -> (r: Result<ParseSuccess<LambdayTerm>, ParseFail>)
    ensures
        reads_as(r, crate::jonla_syntax::term_at(src@, pos as int)),
        r matches Ok(s) ==> pos < s.pos <= src@.len(),
    decreases src@.len() - pos, 6int, 0int,
{
    let mut best: Option<ParseFail> = None;
    let mut k: usize = 0;
    while k < 11
        invariant
            k <= 11,
            k > 0 ==> best is Some,
            crate::jonla_syntax::forms_from(src@, pos as int, k as int, lift_fail(best)) == crate::jonla_syntax::term_at(
                src@,
                pos as int,
            ),
        decreases 11 - k,
    {
        match parse_form(src, pos, form_number(k)) {
            Ok(s) => {
                return Ok(
                    ParseSuccess { result: s.result, best_error: furthest_fail(best, s.best_error), pos: s.pos },
                );
            },
            Err(f) => {
                best = furthest_fail(best, Some(f));
            },
        }
        k += 1;
    }
    Err(best.unwrap())
}

/// Reads `#pt ( term* )`: a product type.
fn read_prod_type(src: &Vec<char>, start: usize) -> (r: Result<ParseSuccess<LambdayTerm>, ParseFail>)
    ensures
        reads_as(r, crate::jonla_syntax::form_at(src@, start as int, Form::ProdType)),
        r matches Ok(s) ==> start < s.pos <= src@.len(),
    decreases src@.len() - start, 3int, 0int,
{
    let s0 = Cursor { pos: start, best: None, failed: None };
    let s1 = read_symbol(src, s0, Symbol::ProdType);
    let s2 = read_symbol(src, s1, Symbol::Open);
    let (types, s3) = read_terms(src, s2, Ghost(start as int));
    let s4 = read_symbol(src, s3, Symbol::Close);
    if let Some(f) = s4.failed {
        return Err(f);
    }
    let types = types.unwrap();
    let term = LambdayTerm::ProdType((start, s4.pos), types);
    Ok(ParseSuccess { result: term, best_error: s4.best, pos: s4.pos })
}

/// Reads `#pc ( term ) ( term* )`: a tuple of a product type.
fn read_prod_constr(src: &Vec<char>, start: usize) -> (r: Result<ParseSuccess<LambdayTerm>, ParseFail>)
    ensures
        reads_as(r, crate::jonla_syntax::form_at(src@, start as int, Form::ProdConstr)),
        r matches Ok(s) ==> start < s.pos <= src@.len(),
    decreases src@.len() - start, 3int, 0int,
{
    let s0 = Cursor { pos: start, best: None, failed: None };
    let s1 = read_symbol(src, s0, Symbol::ProdConstr);
    let s2 = read_symbol(src, s1, Symbol::Open);
    let (typ, s3) = read_term(src, s2, Ghost(start as int));
    let s4 = read_symbol(src, s3, Symbol::Close);
    let s5 = read_symbol(src, s4, Symbol::Open);
    let (vals, s6) = read_terms(src, s5, Ghost(start as int));
    let s7 = read_symbol(src, s6, Symbol::Close);
    if let Some(f) = s7.failed {
        return Err(f);
    }
    let typ = typ.unwrap();
    let vals = vals.unwrap();
    let term = LambdayTerm::ProdConstr((start, s7.pos), Rc::new(typ), vals);
    Ok(ParseSuccess { result: term, best_error: s7.best, pos: s7.pos })
}

/// Reads `#pd ( term ) number`: a projection from a tuple.
fn read_prod_destr(src: &Vec<char>, start: usize) -> (r: Result<ParseSuccess<LambdayTerm>, ParseFail>)
    ensures
        reads_as(r, crate::jonla_syntax::form_at(src@, start as int, Form::ProdDestr)),
        r matches Ok(s) ==> start < s.pos <= src@.len(),
    decreases src@.len() - start, 3int, 0int,
{
    let s0 = Cursor { pos: start, best: None, failed: None };
    let s1 = read_symbol(src, s0, Symbol::ProdDestr);
    let s2 = read_symbol(src, s1, Symbol::Open);
    let (val, s3) = read_term(src, s2, Ghost(start as int));
    let s4 = read_symbol(src, s3, Symbol::Close);
    let (num, s5) = read_number(src, s4);
    if let Some(f) = s5.failed {
        return Err(f);
    }
    let val = val.unwrap();
    let num = num.unwrap();
    let term = LambdayTerm::ProdDestr((start, s5.pos), Rc::new(val), num);
    Ok(ParseSuccess { result: term, best_error: s5.best, pos: s5.pos })
}

/// Reads `#st ( term* )`: a sum type.
fn read_sum_type(src: &Vec<char>, start: usize) -> (r: Result<ParseSuccess<LambdayTerm>, ParseFail>)
    ensures
        reads_as(r, crate::jonla_syntax::form_at(src@, start as int, Form::SumType)),
        r matches Ok(s) ==> start < s.pos <= src@.len(),
    decreases src@.len() - start, 3int, 0int,
{
    let s0 = Cursor { pos: start, best: None, failed: None };
    let s1 = read_symbol(src, s0, Symbol::SumType);
    let s2 = read_symbol(src, s1, Symbol::Open);
    let (types, s3) = read_terms(src, s2, Ghost(start as int));
    let s4 = read_symbol(src, s3, Symbol::Close);
    if let Some(f) = s4.failed {
        return Err(f);
    }
    let types = types.unwrap();
    let term = LambdayTerm::SumType((start, s4.pos), types);
    Ok(ParseSuccess { result: term, best_error: s4.best, pos: s4.pos })
}

/// Reads `#sc ( term ) number ( term )`: an injection into a sum type.
fn read_sum_constr(src: &Vec<char>, start: usize) -> (r: Result<ParseSuccess<LambdayTerm>, ParseFail>)
    ensures
        reads_as(r, crate::jonla_syntax::form_at(src@, start as int, Form::SumConstr)),
        r matches Ok(s) ==> start < s.pos <= src@.len(),
    decreases src@.len() - start, 3int, 0int,
{
    let s0 = Cursor { pos: start, best: None, failed: None };
    let s1 = read_symbol(src, s0, Symbol::SumConstr);
    let s2 = read_symbol(src, s1, Symbol::Open);
    let (typ, s3) = read_term(src, s2, Ghost(start as int));
    let s4 = read_symbol(src, s3, Symbol::Close);
    let (num, s5) = read_number(src, s4);
    let s6 = read_symbol(src, s5, Symbol::Open);
    let (val, s7) = read_term(src, s6, Ghost(start as int));
    let s8 = read_symbol(src, s7, Symbol::Close);
    if let Some(f) = s8.failed {
        return Err(f);
    }
    let typ = typ.unwrap();
    let num = num.unwrap();
    let val = val.unwrap();
    let term = LambdayTerm::SumConstr((start, s8.pos), Rc::new(typ), num, Rc::new(val));
    Ok(ParseSuccess { result: term, best_error: s8.best, pos: s8.pos })
}

/// Reads `#sd ( term ) ( term ) ( term* )`: a case analysis.
fn read_sum_destr(src: &Vec<char>, start: usize) -> (r: Result<ParseSuccess<LambdayTerm>, ParseFail>)
    ensures
        reads_as(r, crate::jonla_syntax::form_at(src@, start as int, Form::SumDestr)),
        r matches Ok(s) ==> start < s.pos <= src@.len(),
    decreases src@.len() - start, 3int, 0int,
{
    let s0 = Cursor { pos: start, best: None, failed: None };
    let s1 = read_symbol(src, s0, Symbol::SumDestr);
    let s2 = read_symbol(src, s1, Symbol::Open);
    let (val, s3) = read_term(src, s2, Ghost(start as int));
    let s4 = read_symbol(src, s3, Symbol::Close);
    let s5 = read_symbol(src, s4, Symbol::Open);
    let (rt, s6) = read_term(src, s5, Ghost(start as int));
    let s7 = read_symbol(src, s6, Symbol::Close);
    let s8 = read_symbol(src, s7, Symbol::Open);
    let (opts, s9) = read_terms(src, s8, Ghost(start as int));
    let s10 = read_symbol(src, s9, Symbol::Close);
    if let Some(f) = s10.failed {
        return Err(f);
    }
    let val = val.unwrap();
    let rt = rt.unwrap();
    let opts = opts.unwrap();
    let term = LambdayTerm::SumDestr((start, s10.pos), Rc::new(val), Rc::new(rt), opts);
    Ok(ParseSuccess { result: term, best_error: s10.best, pos: s10.pos })
}

/// Reads `#ft ( term -> term )`: a function type.
fn read_fun_type(src: &Vec<char>, start: usize) -> (r: Result<ParseSuccess<LambdayTerm>, ParseFail>)
    ensures
        reads_as(r, crate::jonla_syntax::form_at(src@, start as int, Form::FunType)),
        r matches Ok(s) ==> start < s.pos <= src@.len(),
    decreases src@.len() - start, 3int, 0int,
{
    let s0 = Cursor { pos: start, best: None, failed: None };
    let s1 = read_symbol(src, s0, Symbol::FunType);
    let s2 = read_symbol(src, s1, Symbol::Open);
    let (t1, s3) = read_term(src, s2, Ghost(start as int));
    let s4 = read_symbol(src, s3, Symbol::Arrow);
    let (t2, s5) = read_term(src, s4, Ghost(start as int));
    let s6 = read_symbol(src, s5, Symbol::Close);
    if let Some(f) = s6.failed {
        return Err(f);
    }
    let t1 = t1.unwrap();
    let t2 = t2.unwrap();
    let term = LambdayTerm::FunType((start, s6.pos), Rc::new(t1), Rc::new(t2));
    Ok(ParseSuccess { result: term, best_error: s6.best, pos: s6.pos })
}

/// Reads `#fc ( name : term ) ( term )`: a function.
fn read_fun_constr(src: &Vec<char>, start: usize) -> (r: Result<ParseSuccess<LambdayTerm>, ParseFail>)
    ensures
        reads_as(r, crate::jonla_syntax::form_at(src@, start as int, Form::FunConstr)),
        r matches Ok(s) ==> start < s.pos <= src@.len(),
    decreases src@.len() - start, 3int, 0int,
{
    let s0 = Cursor { pos: start, best: None, failed: None };
    let s1 = read_symbol(src, s0, Symbol::FunConstr);
    let s2 = read_symbol(src, s1, Symbol::Open);
    let (t1, s3) = read_name(src, s2);
    let s4 = read_symbol(src, s3, Symbol::Colon);
    let (t2, s5) = read_term(src, s4, Ghost(start as int));
    let s6 = read_symbol(src, s5, Symbol::Close);
    let s7 = read_symbol(src, s6, Symbol::Open);
    let (t3, s8) = read_term(src, s7, Ghost(start as int));
    let s9 = read_symbol(src, s8, Symbol::Close);
    if let Some(f) = s9.failed {
        return Err(f);
    }
    let t1 = t1.unwrap();
    let t2 = t2.unwrap();
    let t3 = t3.unwrap();
    let term = LambdayTerm::FunConstr((start, s9.pos), t1, Rc::new(t2), Rc::new(t3));
    Ok(ParseSuccess { result: term, best_error: s9.best, pos: s9.pos })
}

/// Reads `#fd ( term ) ( term )`: an application.
fn read_fun_destr(src: &Vec<char>, start: usize) -> (r: Result<ParseSuccess<LambdayTerm>, ParseFail>)
    ensures
        reads_as(r, crate::jonla_syntax::form_at(src@, start as int, Form::FunDestr)),
        r matches Ok(s) ==> start < s.pos <= src@.len(),
    decreases src@.len() - start, 3int, 0int,
{
    let s0 = Cursor { pos: start, best: None, failed: None };
    let s1 = read_symbol(src, s0, Symbol::FunDestr);
    let s2 = read_symbol(src, s1, Symbol::Open);
    let (t1, s3) = read_term(src, s2, Ghost(start as int));
    let s4 = read_symbol(src, s3, Symbol::Close);
    let s5 = read_symbol(src, s4, Symbol::Open);
    let (t2, s6) = read_term(src, s5, Ghost(start as int));
    let s7 = read_symbol(src, s6, Symbol::Close);
    if let Some(f) = s7.failed {
        return Err(f);
    }
    let t1 = t1.unwrap();
    let t2 = t2.unwrap();
    let term = LambdayTerm::FunDestr((start, s7.pos), Rc::new(t1), Rc::new(t2));
    Ok(ParseSuccess { result: term, best_error: s7.best, pos: s7.pos })
}

/// Reads `#tt`: the type of types.
fn read_type_type(src: &Vec<char>, start: usize) -> (r: Result<ParseSuccess<LambdayTerm>, ParseFail>)
    ensures
        reads_as(r, crate::jonla_syntax::form_at(src@, start as int, Form::TypeType)),
        r matches Ok(s) ==> start < s.pos <= src@.len(),
    decreases src@.len() - start, 3int, 0int,
{
    let s0 = Cursor { pos: start, best: None, failed: None };
    let s1 = read_symbol(src, s0, Symbol::TypeType);
    if let Some(f) = s1.failed {
        return Err(f);
    }
    let term = LambdayTerm::TypeType((start, s1.pos));
    Ok(ParseSuccess { result: term, best_error: s1.best, pos: s1.pos })
}

/// Reads `name`: a variable.
fn read_var(src: &Vec<char>, start: usize) -> (r: Result<ParseSuccess<LambdayTerm>, ParseFail>)
    ensures
        reads_as(r, crate::jonla_syntax::form_at(src@, start as int, Form::Var)),
        r matches Ok(s) ==> start < s.pos <= src@.len(),
    decreases src@.len() - start, 3int, 0int,
{
    let s0 = Cursor { pos: start, best: None, failed: None };
    let (name, s1) = read_name(src, s0);
    if let Some(f) = s1.failed {
        return Err(f);
    }
    let name = name.unwrap();
    let term = LambdayTerm::Var((start, s1.pos), name);
    Ok(ParseSuccess { result: term, best_error: s1.best, pos: s1.pos })
}

/// Reads a term of one form at `start`.
pub fn parse_form(src: &Vec<char>, start: usize, form: Form) -> (r: Result<ParseSuccess<LambdayTerm>, ParseFail>)
    ensures
        reads_as(r, crate::jonla_syntax::form_at(src@, start as int, form)),
        r matches Ok(s) ==> start < s.pos <= src@.len(),
    decreases src@.len() - start, 4int, 0int,
{
    match form {
        Form::ProdType => read_prod_type(src, start),
        Form::ProdConstr => read_prod_constr(src, start),
        Form::ProdDestr => read_prod_destr(src, start),
        Form::SumType => read_sum_type(src, start),
        Form::SumConstr => read_sum_constr(src, start),
        Form::SumDestr => read_sum_destr(src, start),
        Form::FunType => read_fun_type(src, start),
        Form::FunConstr => read_fun_constr(src, start),
        Form::FunDestr => read_fun_destr(src, start),
        Form::TypeType => read_type_type(src, start),
        Form::Var => read_var(src, start),
    }
}

/// Whether `r` is the program `want`, or the failure `want`.
pub open spec fn program_reads_as(
    r: Result<ParseSuccess<Vec<LambdayTerm>>, ParseFail>,
    want: Result<Reading<Seq<Term>>, Failure>,
) -> bool {
    match (r, want) {
        (Ok(s), Ok(w)) => crate::lambday::term_list(s.result@, s.result@.len() as int) == w.result && s.pos
            == w.pos && lift_fail(s.best_error) == w.best,
        (Err(f), Err(w)) => f@ == w,
        _ => false,
    }
}

/// Reads a program: terms for as long as there is one, and then, after
/// white space, the end of the input. Where the input goes on, the
/// failure is the missing end, unless an attempt that was given up got
/// further.
pub fn parse_jonla_program(src: &Vec<char>) -> (r: Result<ParseSuccess<Vec<LambdayTerm>>, ParseFail>)
    ensures
        program_reads_as(r, crate::jonla_syntax::program_at(src@)),
{
    let terms = read_terms_from(src, 0, None, Ghost(-1));
    let p = scan(src, terms.pos, Run::Space);
    if p == src.len() {
        Ok(ParseSuccess { result: terms.result, best_error: terms.best_error, pos: p })
    } else {
        let missing_end = ParseFail { pos: p, expected: Expected::EndOfInput };
        Err(furthest_fail(Some(missing_end), terms.best_error).unwrap())
    }
}

impl ParseFail {
    /// Whether `e` is the diagnostic for the failure in a source of
    /// `src_len` characters: the end of the file where the failure lies at
    /// or beyond it, else the character there with what was expected.
    pub open spec fn has_entry(&self, src_len: usize, e: JErrorEntry) -> bool {
        let here = (self.pos, (self.pos + 1) as usize);
        if self.pos >= src_len {
            e == JErrorEntry::UnexpectedEOF((self.pos, self.pos))
        } else {
            match self.expected {
                Expected::Symbol(sym) => e == JErrorEntry::UnexpectedStr(here, symbol_literal(sym)),
                Expected::Name => e matches JErrorEntry::UnexpectedString(span, what) && span == here && what@
                    == "name"@,
                Expected::Number => e matches JErrorEntry::UnexpectedString(span, what) && span == here
                    && what@ == "number"@,
                Expected::EndOfInput => e == JErrorEntry::UnexpectedStr(here, "end of input"),
            }
        }
    }

    /// The diagnostic for the failure in a source of `src_len`
    /// characters.
    pub fn entry(&self, src_len: usize) -> (e: JErrorEntry)
        ensures
            self.has_entry(src_len, e),
    {
        if self.pos >= src_len {
            JErrorEntry::UnexpectedEOF((self.pos, self.pos))
        } else {
            let here = (self.pos, self.pos + 1);
            match self.expected {
                Expected::Symbol(sym) => JErrorEntry::UnexpectedStr(here, symbol_str(sym)),
                Expected::Name => JErrorEntry::UnexpectedString(here, String::from_str("name")),
                Expected::Number => JErrorEntry::UnexpectedString(here, String::from_str("number")),
                Expected::EndOfInput => JErrorEntry::UnexpectedStr(here, "end of input"),
            }
        }
    }
}

} // verus!
