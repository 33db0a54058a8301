//! What the text of a program means: the terms it holds, where each was
//! read, and where reading failed.
//!
//! A form is read as a line of steps from a start position. A step skips
//! white space and then reads a symbol, a name, a number, a term or a list
//! of terms. The steps share a track: the position reached, the furthest
//! failure met so far in attempts that were given up, and, once a step
//! has failed, the failure of the line. After a failure the remaining
//! steps do nothing.

use vstd::prelude::*;
use crate::lambday::Term;

verus! {

/// The fixed pieces of text of the language.
#[derive(Debug, Clone, Copy, PartialEq, Eq)]
pub enum Symbol {
    ProdType,
    ProdConstr,
    ProdDestr,
    SumType,
    SumConstr,
    SumDestr,
    FunType,
    FunConstr,
    FunDestr,
    TypeType,
    Open,
    Close,
    Arrow,
    Colon,
}

/// What a step wanted to read where it failed.
#[derive(Debug, Clone, Copy, PartialEq, Eq)]
pub enum Expected {
    Symbol(Symbol),
    Name,
    Number,
    EndOfInput,
}

/// The forms of a term, in the order in which they are tried.
#[derive(Debug, Clone, Copy, PartialEq, Eq)]
pub enum Form {
    ProdType,
    ProdConstr,
    ProdDestr,
    SumType,
    SumConstr,
    SumDestr,
    FunType,
    FunConstr,
    FunDestr,
    TypeType,
    Var,
}

/// The kinds of character that are read in runs.
#[derive(Debug, Clone, Copy, PartialEq, Eq)]
pub enum Run {
    Space,
    Letter,
    Digit,
}

/// A failure: a position and what was expected there.
pub ghost struct Failure {
    pub pos: int,
    pub expected: Expected,
}

/// The state of a line of steps.
pub ghost struct Track {
    /// The position reached.
    pub pos: int,
    /// The furthest failure among attempts that were given up.
    pub best: Option<Failure>,
    /// The failure of the line, once a step has failed.
    pub failed: Option<Failure>,
}

/// A term that was read: the term, the position after it, and the
/// furthest failure among attempts that were given up on the way.
pub ghost struct Reading<T> {
    pub result: T,
    pub pos: int,
    pub best: Option<Failure>,
}

/// Whether a character is alphabetic, as Unicode defines it: what
/// `char::is_alphabetic` answers.
pub uninterp spec fn alphabetic(c: char) -> bool;

/// The further of two failures, the first one on a tie.
pub open spec fn furthest(a: Option<Failure>, b: Option<Failure>) -> Option<Failure> {
    match (a, b) {
        (None, _) => b,
        (_, None) => a,
        (Some(x), Some(y)) => if y.pos > x.pos { b } else { a },
    }
}

/// White space: a blank, a tab, a line feed or a carriage return.
pub open spec fn is_space(c: char) -> bool {
    c == ' ' || c == '\t' || c == '\n' || c == '\r'
}

/// A decimal digit.
pub open spec fn is_digit(c: char) -> bool {
    '0' <= c && c <= '9'
}

/// Whether `c` belongs to runs of `kind`.
pub open spec fn in_run(kind: Run, c: char) -> bool {
    match kind {
        Run::Space => is_space(c),
        Run::Letter => alphabetic(c),
        Run::Digit => is_digit(c),
    }
}

/// Where the longest run of characters of `kind` from `pos` ends.
pub open spec fn run_end(input: Seq<char>, pos: int, kind: Run) -> int
    decreases input.len() - pos,
{
    if 0 <= pos < input.len() && in_run(kind, input[pos]) {
        run_end(input, pos + 1, kind)
    } else {
        pos
    }
}

/// The text of a symbol.
pub open spec fn symbol_text(s: Symbol) -> Seq<char> {
    match s {
        Symbol::ProdType => "#pt"@,
        Symbol::ProdConstr => "#pc"@,
        Symbol::ProdDestr => "#pd"@,
        Symbol::SumType => "#st"@,
        Symbol::SumConstr => "#sc"@,
        Symbol::SumDestr => "#sd"@,
        Symbol::FunType => "#ft"@,
        Symbol::FunConstr => "#fc"@,
        Symbol::FunDestr => "#fd"@,
        Symbol::TypeType => "#tt"@,
        Symbol::Open => "("@,
        Symbol::Close => ")"@,
        Symbol::Arrow => "->"@,
        Symbol::Colon => ":"@,
    }
}

/// Whether the input holds `text` at `pos`.
pub open spec fn text_at(input: Seq<char>, pos: int, text: Seq<char>) -> bool {
    0 <= pos && pos + text.len() <= input.len() && input.subrange(pos, pos + text.len()) == text
}

/// The number that a run of decimal digits writes.
pub open spec fn decimal(digits: Seq<char>) -> nat
    decreases digits.len(),
{
    if digits.len() == 0 {
        0
    } else {
        (decimal(digits.drop_last()) * 10 + (digits.last() as int - '0' as int)) as nat
    }
}

/// A track at the start of a line.
pub open spec fn track_from(start: int) -> Track {
    Track { pos: start, best: None, failed: None }
}

/// The track after a step failed at `pos` wanting `expected`.
pub open spec fn track_failed(s: Track, pos: int, expected: Expected) -> Track {
    Track { pos: s.pos, best: s.best, failed: furthest(s.best, Some(Failure { pos, expected })) }
}

/// Reads a symbol after white space.
#[verifier::opaque]
pub open spec fn step_symbol(input: Seq<char>, s: Track, sym: Symbol) -> Track {
    let p = run_end(input, s.pos, Run::Space);
    if s.failed is Some {
        s
    } else if text_at(input, p, symbol_text(sym)) {
        Track { pos: p + symbol_text(sym).len(), best: s.best, failed: None }
    } else {
        track_failed(s, p, Expected::Symbol(sym))
    }
}

/// A name at `pos`: the longest run of letters, which has to hold one at
/// least, and where it ends.
pub open spec fn name_at(input: Seq<char>, pos: int) -> Option<(Seq<char>, int)> {
    let e = run_end(input, pos, Run::Letter);
    if 0 <= pos < e <= input.len() {
        Some((input.subrange(pos, e), e))
    } else {
        None
    }
}

/// A number at `pos`: the longest run of digits, which has to hold one at
/// least and write a number that a machine word holds, and where it ends.
pub open spec fn number_at(input: Seq<char>, pos: int) -> Option<(int, int)> {
    let e = run_end(input, pos, Run::Digit);
    if 0 <= pos < e <= input.len() && decimal(input.subrange(pos, e)) <= usize::MAX {
        Some((decimal(input.subrange(pos, e)) as int, e))
    } else {
        None
    }
}

/// Reads a name after white space.
#[verifier::opaque]
pub open spec fn step_name(input: Seq<char>, s: Track) -> (Option<Seq<char>>, Track) {
    let p = run_end(input, s.pos, Run::Space);
    if s.failed is Some {
        (None, s)
    } else {
        match name_at(input, p) {
            Some((name, e)) => (Some(name), Track { pos: e, best: s.best, failed: None }),
            None => (None, track_failed(s, p, Expected::Name)),
        }
    }
}

/// Reads a number after white space.
#[verifier::opaque]
pub open spec fn step_number(input: Seq<char>, s: Track) -> (Option<int>, Track) {
    let p = run_end(input, s.pos, Run::Space);
    if s.failed is Some {
        (None, s)
    } else {
        match number_at(input, p) {
            Some((n, e)) => (Some(n), Track { pos: e, best: s.best, failed: None }),
            None => (None, track_failed(s, p, Expected::Number)),
        }
    }
}

/// Reads a term within a line that started at `start` and has moved on
/// since.
pub open spec fn step_term(input: Seq<char>, s: Track, start: int) -> (Option<Term>, Track)
    decreases input.len() - start, 0int, 0int,
{
    if s.failed is Some {
        (None, s)
    } else if start < s.pos <= input.len() {
        match term_at(input, s.pos) {
            Ok(r) => (Some(r.result), Track { pos: r.pos, best: furthest(s.best, r.best), failed: None }),
            Err(f) => (None, Track { pos: s.pos, best: s.best, failed: furthest(s.best, Some(f)) }),
        }
    } else {
        (None, track_failed(s, s.pos, Expected::Name))
    }
}

/// Reads terms from `pos` for as long as there is one, after `acc`. The
/// failure that ended the list is kept as an attempt given up.
pub open spec fn terms_from(input: Seq<char>, pos: int, best: Option<Failure>, acc: Seq<Term>, start: int) -> Reading<
    Seq<Term>,
>
    decreases input.len() - start, 1int, input.len() - pos,
{
    if start < pos <= input.len() {
        match term_at(input, pos) {
            Ok(r) => {
                if pos < r.pos <= input.len() {
                    terms_from(input, r.pos, furthest(best, r.best), acc.push(r.result), start)
                } else {
                    Reading { result: acc.push(r.result), pos: r.pos, best: furthest(best, r.best) }
                }
            },
            Err(f) => Reading { result: acc, pos, best: furthest(best, Some(f)) },
        }
    } else {
        Reading { result: acc, pos, best }
    }
}

/// Reads a list of terms within a line that started at `start` and has
/// moved on since.
pub open spec fn step_terms(input: Seq<char>, s: Track, start: int) -> (Option<Seq<Term>>, Track)
    decreases input.len() - start, 2int, 0int,
{
    if s.failed is Some {
        (None, s)
    } else {
        let r = terms_from(input, s.pos, s.best, Seq::empty(), start);
        (Some(r.result), Track { pos: r.pos, best: r.best, failed: None })
    }
}

/// The outcome of a line that built `term`.
pub open spec fn finish(s: Track, term: Term) -> Result<Reading<Term>, Failure> {
    match s.failed {
        Some(f) => Err(f),
        None => Ok(Reading { result: term, pos: s.pos, best: s.best }),
    }
}

/// The form with number `k` in the order of trial.
pub open spec fn form_no(k: int) -> Form {
    if k == 0 {
        Form::ProdType
    } else if k == 1 {
        Form::ProdConstr
    } else if k == 2 {
        Form::ProdDestr
    } else if k == 3 {
        Form::SumType
    } else if k == 4 {
        Form::SumConstr
    } else if k == 5 {
        Form::SumDestr
    } else if k == 6 {
        Form::FunType
    } else if k == 7 {
        Form::FunConstr
    } else if k == 8 {
        Form::FunDestr
    } else if k == 9 {
        Form::TypeType
    } else {
        Form::Var
    }
}

/// Reads a term of one form at `start`. The term's region runs from
/// `start`, white space before it included, to the end of its last piece.
pub open spec fn form_at(input: Seq<char>, start: int, form: Form) -> Result<Reading<Term>, Failure>
    decreases input.len() - start, 3int, 0int,
{
    let s0 = track_from(start);
    match form {
        Form::ProdType => {
            let s1 = step_symbol(input, s0, Symbol::ProdType);
            let s2 = step_symbol(input, s1, Symbol::Open);
            let (types, s3) = step_terms(input, s2, start);
            let s4 = step_symbol(input, s3, Symbol::Close);
            finish(s4, Term::ProdType((start, s4.pos), types->0))
        },
        Form::ProdConstr => {
            let s1 = step_symbol(input, s0, Symbol::ProdConstr);
            let s2 = step_symbol(input, s1, Symbol::Open);
            let (typ, s3) = step_term(input, s2, start);
            let s4 = step_symbol(input, s3, Symbol::Close);
            let s5 = step_symbol(input, s4, Symbol::Open);
            let (vals, s6) = step_terms(input, s5, start);
            let s7 = step_symbol(input, s6, Symbol::Close);
            finish(s7, Term::ProdConstr((start, s7.pos), Box::new(typ->0), vals->0))
        },
        Form::ProdDestr => {
            let s1 = step_symbol(input, s0, Symbol::ProdDestr);
            let s2 = step_symbol(input, s1, Symbol::Open);
            let (val, s3) = step_term(input, s2, start);
            let s4 = step_symbol(input, s3, Symbol::Close);
            let (num, s5) = step_number(input, s4);
            finish(s5, Term::ProdDestr((start, s5.pos), Box::new(val->0), num->0))
        },
        Form::SumType => {
            let s1 = step_symbol(input, s0, Symbol::SumType);
            let s2 = step_symbol(input, s1, Symbol::Open);
            let (types, s3) = step_terms(input, s2, start);
            let s4 = step_symbol(input, s3, Symbol::Close);
            finish(s4, Term::SumType((start, s4.pos), types->0))
        },
        Form::SumConstr => {
            let s1 = step_symbol(input, s0, Symbol::SumConstr);
            let s2 = step_symbol(input, s1, Symbol::Open);
            let (typ, s3) = step_term(input, s2, start);
            let s4 = step_symbol(input, s3, Symbol::Close);
            let (num, s5) = step_number(input, s4);
            let s6 = step_symbol(input, s5, Symbol::Open);
            let (val, s7) = step_term(input, s6, start);
            let s8 = step_symbol(input, s7, Symbol::Close);
            finish(s8, Term::SumConstr((start, s8.pos), Box::new(typ->0), num->0, Box::new(val->0)))
        },
        Form::SumDestr => {
            let s1 = step_symbol(input, s0, Symbol::SumDestr);
            let s2 = step_symbol(input, s1, Symbol::Open);
            let (val, s3) = step_term(input, s2, start);
            let s4 = step_symbol(input, s3, Symbol::Close);
            let s5 = step_symbol(input, s4, Symbol::Open);
            let (rt, s6) = step_term(input, s5, start);
            let s7 = step_symbol(input, s6, Symbol::Close);
            let s8 = step_symbol(input, s7, Symbol::Open);
            let (opts, s9) = step_terms(input, s8, start);
            let s10 = step_symbol(input, s9, Symbol::Close);
            finish(s10, Term::SumDestr((start, s10.pos), Box::new(val->0), Box::new(rt->0), opts->0))
        },
        Form::FunType => {
            let s1 = step_symbol(input, s0, Symbol::FunType);
            let s2 = step_symbol(input, s1, Symbol::Open);
            let (t1, s3) = step_term(input, s2, start);
            let s4 = step_symbol(input, s3, Symbol::Arrow);
            let (t2, s5) = step_term(input, s4, start);
            let s6 = step_symbol(input, s5, Symbol::Close);
            finish(s6, Term::FunType((start, s6.pos), Box::new(t1->0), Box::new(t2->0)))
        },
        Form::FunConstr => {
            let s1 = step_symbol(input, s0, Symbol::FunConstr);
            let s2 = step_symbol(input, s1, Symbol::Open);
            let (t1, s3) = step_name(input, s2);
            let s4 = step_symbol(input, s3, Symbol::Colon);
            let (t2, s5) = step_term(input, s4, start);
            let s6 = step_symbol(input, s5, Symbol::Close);
            let s7 = step_symbol(input, s6, Symbol::Open);
            let (t3, s8) = step_term(input, s7, start);
            let s9 = step_symbol(input, s8, Symbol::Close);
            finish(s9, Term::FunConstr((start, s9.pos), t1->0, Box::new(t2->0), Box::new(t3->0)))
        },
        Form::FunDestr => {
            let s1 = step_symbol(input, s0, Symbol::FunDestr);
            let s2 = step_symbol(input, s1, Symbol::Open);
            let (t1, s3) = step_term(input, s2, start);
            let s4 = step_symbol(input, s3, Symbol::Close);
            let s5 = step_symbol(input, s4, Symbol::Open);
            let (t2, s6) = step_term(input, s5, start);
            let s7 = step_symbol(input, s6, Symbol::Close);
            finish(s7, Term::FunDestr((start, s7.pos), Box::new(t1->0), Box::new(t2->0)))
        },
        Form::TypeType => {
            let s1 = step_symbol(input, s0, Symbol::TypeType);
            finish(s1, Term::TypeType((start, s1.pos)))
        },
        Form::Var => {
            let (name, s1) = step_name(input, s0);
            finish(s1, Term::Var((start, s1.pos), name->0))
        },
    }
}

/// Tries the forms from number `k` on, in order, at `start`: the first
/// that can be read is the term. `best` is the furthest failure among the
/// forms tried before; if no form can be read, the furthest failure of
/// all is the failure.
pub open spec fn forms_from(input: Seq<char>, start: int, k: int, best: Option<Failure>) -> Result<
    Reading<Term>,
    Failure,
>
    decreases input.len() - start, 4int, 11 - k,
{
    if 0 <= k < 11 {
        match form_at(input, start, form_no(k)) {
            Ok(r) => Ok(Reading { result: r.result, pos: r.pos, best: furthest(best, r.best) }),
            Err(f) => forms_from(input, start, k + 1, furthest(best, Some(f))),
        }
    } else {
        match best {
            Some(f) => Err(f),
            None => Err(Failure { pos: start, expected: Expected::Name }),
        }
    }
}

/// Reads a term at `start`.
pub open spec fn term_at(input: Seq<char>, start: int) -> Result<Reading<Term>, Failure>
    decreases input.len() - start, 5int, 0int,
{
    forms_from(input, start, 0, None)
}

/// Reads a program: terms for as long as there is one, and then, after
/// white space, the end of the input. Where the input goes on, the
/// failure is the missing end, unless an attempt that was given up got
/// further.
pub open spec fn program_at(input: Seq<char>) -> Result<Reading<Seq<Term>>, Failure> {
    let r = terms_from(input, 0, None, Seq::empty(), -1);
    let p = run_end(input, r.pos, Run::Space);
    if p == input.len() {
        Ok(Reading { result: r.result, pos: p, best: r.best })
    } else {
        Err(furthest(Some(Failure { pos: p, expected: Expected::EndOfInput }), r.best)->0)
    }
}

} // verus!
