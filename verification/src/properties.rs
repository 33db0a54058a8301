//! What holds of every evaluation: a larger bound on the depth of rule
//! references never changes an outcome, and positions only move forward
//! and stay within the input.

use vstd::prelude::*;
use crate::action_result::Ast;
use crate::grammar::{
    captured_among, captured_names, lookup, rule_free, rule_free_among, Rule, RuleBody,
};
use crate::parser_result::Outcome;
use crate::semantics::{
    eval, eval_choice, eval_literal, eval_repeat, eval_rule, eval_sequence, expr_defined, expr_outcome,
    matched_len, repeat_goes_on, repeat_step, rule_defined, rule_outcome, sequence_step, Captures, Parsed,
};

verus! {

/// Whether the positions of `o` lie between `pos` and the end of the
/// input (or `pos` itself, where it is beyond the end).
pub open spec fn within<V>(o: Outcome<V>, pos: int, len: int) -> bool {
    &&& pos <= o.pos
    &&& o.pos <= len || o.pos == pos
    &&& o.deepest matches Some(d) ==> pos <= d && (d <= len || d == pos)
}

/// An outcome does not depend on the bound, once the bound is large
/// enough for the evaluation to have one.
pub proof fn lemma_eval_fuel(rules: Seq<Rule>, input: Seq<char>, expr: RuleBody, pos: int, f: nat, g: nat)
    requires
        eval(rules, input, expr, pos, f) is Some,
        f <= g,
    ensures
        eval(rules, input, expr, pos, g) == eval(rules, input, expr, pos, f),
    decreases f, expr, 1int, 0int, 0int,
{
    match expr {
        RuleBody::Rule(name) => {
            let idx = lookup(rules, name@)->0;
            lemma_eval_fuel(rules, input, rules[idx].body, pos, (f - 1) as nat, (g - 1) as nat);
        },
        RuleBody::CharClass(_) => {},
        RuleBody::Literal(_) => {},
        RuleBody::Repeat { .. } => {
            lemma_repeat_fuel(rules, input, expr, f, g, 0, Outcome::ok((), pos));
        },
        RuleBody::Sequence(subs) => {
            lemma_sequence_fuel(rules, input, subs@, f, g, 0, Outcome::ok(Map::empty(), pos));
        },
        RuleBody::Choice(subs) => {
            lemma_choice_fuel(rules, input, subs@, pos, f, g, 0, Outcome::err(pos));
        },
        RuleBody::NameBind(_, sub) => {
            lemma_eval_fuel(rules, input, *sub, pos, f, g);
        },
        RuleBody::Action(sub, _) => {
            lemma_eval_fuel(rules, input, *sub, pos, f, g);
        },
        RuleBody::SliceInput(sub) => {
            lemma_eval_fuel(rules, input, *sub, pos, f, g);
        },
    }
}

/// `lemma_eval_fuel`, for the rest of a sequence.
pub proof fn lemma_sequence_fuel(
    rules: Seq<Rule>,
    input: Seq<char>,
    subs: Seq<RuleBody>,
    f: nat,
    g: nat,
    i: int,
    acc: Outcome<Captures>,
)
    requires
        eval_sequence(rules, input, subs, f, i, acc) is Some,
        f <= g,
    ensures
        eval_sequence(rules, input, subs, g, i, acc) == eval_sequence(rules, input, subs, f, i, acc),
    decreases f, subs, 0int, subs.len() - i, 0int,
{
    if 0 <= i < subs.len() {
        lemma_eval_fuel(rules, input, subs[i], acc.pos, f, g);
        let part = eval(rules, input, subs[i], acc.pos, f)->0;
        let next = sequence_step(acc, part);
        if next.is_ok() {
            lemma_sequence_fuel(rules, input, subs, f, g, i + 1, next);
        }
    }
}

/// `lemma_eval_fuel`, for the rest of a choice.
pub proof fn lemma_choice_fuel(
    rules: Seq<Rule>,
    input: Seq<char>,
    subs: Seq<RuleBody>,
    pos: int,
    f: nat,
    g: nat,
    i: int,
    best: Parsed,
)
    requires
        eval_choice(rules, input, subs, pos, f, i, best) is Some,
        f <= g,
    ensures
        eval_choice(rules, input, subs, pos, g, i, best) == eval_choice(rules, input, subs, pos, f, i, best),
    decreases f, subs, 0int, subs.len() - i, 0int,
{
    if 0 <= i < subs.len() {
        lemma_eval_fuel(rules, input, subs[i], pos, f, g);
        let candidate = eval(rules, input, subs[i], pos, f)->0;
        let next = best.or(candidate);
        if !next.is_ok() {
            lemma_choice_fuel(rules, input, subs, pos, f, g, i + 1, next);
        }
    }
}

/// `lemma_eval_fuel`, for the rest of a repetition.
pub proof fn lemma_repeat_fuel(
    rules: Seq<Rule>,
    input: Seq<char>,
    expr: RuleBody,
    f: nat,
    g: nat,
    count: nat,
    st: Outcome<()>,
)
    requires
        eval_repeat(rules, input, expr, f, count, st) is Some,
        f <= g,
    ensures
        eval_repeat(rules, input, expr, g, count, st) == eval_repeat(rules, input, expr, f, count, st),
    decreases f, expr, 0int, input.len() - st.pos, expr->min - count,
{
    match expr {
        RuleBody::Repeat { expr: item, min, max, delim } => {
            if !(max is Some && count >= max->0) {
                if count != 0 {
                    lemma_eval_fuel(rules, input, *delim, st.pos, f, g);
                }
                let s1 = if count == 0 {
                    st
                } else {
                    repeat_step(st, eval(rules, input, *delim, st.pos, f)->0)
                };
                if s1.is_ok() {
                    lemma_eval_fuel(rules, input, *item, s1.pos, f, g);
                    let s2 = repeat_step(s1, eval(rules, input, *item, s1.pos, f)->0);
                    if s2.is_ok() {
                        if repeat_goes_on(st.pos, s2.pos, input.len() as int, count, min as nat) {
                            lemma_repeat_fuel(rules, input, expr, f, g, count + 1, s2);
                        }
                    }
                }
            }
        },
        _ => {},
    }
}

/// Two bounds that both give an outcome give the same one.
pub proof fn lemma_eval_unique(rules: Seq<Rule>, input: Seq<char>, expr: RuleBody, pos: int, f: nat, g: nat)
    requires
        eval(rules, input, expr, pos, f) is Some,
        eval(rules, input, expr, pos, g) is Some,
    ensures
        eval(rules, input, expr, pos, g) == eval(rules, input, expr, pos, f),
{
    if f <= g {
        lemma_eval_fuel(rules, input, expr, pos, f, g);
    } else {
        lemma_eval_fuel(rules, input, expr, pos, g, f);
    }
}

/// Where a bound gives an expression an outcome, the expression is
/// defined and that is its outcome.
pub proof fn lemma_expr_outcome(rules: Seq<Rule>, input: Seq<char>, expr: RuleBody, pos: int, f: nat)
    requires
        eval(rules, input, expr, pos, f) is Some,
    ensures
        expr_defined(rules, input, expr, pos),
        expr_outcome(rules, input, expr, pos) == eval(rules, input, expr, pos, f)->0,
{
    let g = choose|fuel: nat| eval(rules, input, expr, pos, fuel) is Some;
    lemma_eval_unique(rules, input, expr, pos, f, g);
}

/// Where a bound gives a rule an outcome, the rule is defined and that is
/// its outcome.
pub proof fn lemma_rule_outcome(rules: Seq<Rule>, input: Seq<char>, name: Seq<char>, pos: int, f: nat)
    requires
        eval_rule(rules, input, name, pos, f) is Some,
    ensures
        rule_defined(rules, input, name, pos),
        rule_outcome(rules, input, name, pos) == eval_rule(rules, input, name, pos, f)->0,
{
    let g = choose|fuel: nat| eval_rule(rules, input, name, pos, fuel) is Some;
    let idx = lookup(rules, name)->0;
    lemma_eval_unique(rules, input, rules[idx].body, pos, (f - 1) as nat, (g - 1) as nat);
}

/// What `matched_len` counts: the characters of `text` up to the count
/// stand in the input, and the one at the count, if there is one, does
/// not.
pub proof fn lemma_matched_len(input: Seq<char>, text: Seq<char>, pos: int, k: int)
    requires
        0 <= k <= text.len(),
    ensures
        k <= matched_len(input, text, pos, k) <= text.len(),
        matched_len(input, text, pos, k) > k ==> 0 <= pos + k && pos + matched_len(input, text, pos, k)
            <= input.len(),
        forall|j: int|
            k <= j < matched_len(input, text, pos, k) ==> 0 <= pos + j < input.len() && #[trigger] input[pos
                + j] == text[j],
        matched_len(input, text, pos, k) < text.len() ==> !(0 <= pos + matched_len(input, text, pos, k)
            < input.len() && input[pos + matched_len(input, text, pos, k)] == text[matched_len(
            input,
            text,
            pos,
            k,
        )]),
    decreases text.len() - k,
{
    if 0 <= k < text.len() && 0 <= pos + k < input.len() && input[pos + k] == text[k] {
        lemma_matched_len(input, text, pos, k + 1);
    }
}

/// A literal matches exactly where the input holds its text, and then
/// ends one text's length further on.
pub proof fn lemma_literal(input: Seq<char>, text: Seq<char>, pos: int)
    ensures
        eval_literal(input, text, pos).is_ok() <==> (text.len() == 0 || (0 <= pos && pos + text.len()
            <= input.len() && input.subrange(pos, pos + text.len()) == text)),
        eval_literal(input, text, pos).is_ok() ==> eval_literal(input, text, pos).pos == pos + text.len(),
        within(eval_literal(input, text, pos), pos, input.len() as int),
{
    lemma_matched_len(input, text, pos, 0);
    let k = matched_len(input, text, pos, 0);
    if k == text.len() && text.len() > 0 {
        assert forall|j: int| 0 <= j < text.len() implies input.subrange(pos, pos + text.len())[j]
            == text[j] by {
            assert(input[pos + j] == text[j]);
        }
        assert(input.subrange(pos, pos + text.len()) =~= text);
    }
    if text.len() > 0 && 0 <= pos && pos + text.len() <= input.len() && input.subrange(
        pos,
        pos + text.len(),
    ) == text {
        if k < text.len() {
            assert(input.subrange(pos, pos + text.len())[k] == input[pos + k]);
        }
    }
}

/// Positions only move forward and stay within the input: an outcome's
/// position, and the deepest failure it records, lie between the start
/// position and the end of the input.
pub proof fn lemma_eval_within(rules: Seq<Rule>, input: Seq<char>, expr: RuleBody, pos: int, f: nat)
    requires
        eval(rules, input, expr, pos, f) is Some,
    ensures
        within(eval(rules, input, expr, pos, f)->0, pos, input.len() as int),
    decreases f, expr, 1int, 0int, 0int,
{
    match expr {
        RuleBody::Rule(name) => {
            let idx = lookup(rules, name@)->0;
            lemma_eval_within(rules, input, rules[idx].body, pos, (f - 1) as nat);
        },
        RuleBody::CharClass(_) => {},
        RuleBody::Literal(text) => {
            lemma_literal(input, text@, pos);
        },
        RuleBody::Repeat { .. } => {
            lemma_repeat_within(rules, input, expr, pos, f, 0, Outcome::ok((), pos));
        },
        RuleBody::Sequence(subs) => {
            lemma_sequence_within(rules, input, subs@, pos, f, 0, Outcome::ok(Map::empty(), pos));
        },
        RuleBody::Choice(subs) => {
            lemma_choice_within(rules, input, subs@, pos, f, 0, Outcome::err(pos));
        },
        RuleBody::NameBind(_, sub) => {
            lemma_eval_within(rules, input, *sub, pos, f);
        },
        RuleBody::Action(sub, _) => {
            lemma_eval_within(rules, input, *sub, pos, f);
        },
        RuleBody::SliceInput(sub) => {
            lemma_eval_within(rules, input, *sub, pos, f);
        },
    }
}

/// `lemma_eval_within`, for the rest of a sequence that started at `pos`.
pub proof fn lemma_sequence_within(
    rules: Seq<Rule>,
    input: Seq<char>,
    subs: Seq<RuleBody>,
    pos: int,
    f: nat,
    i: int,
    acc: Outcome<Captures>,
)
    requires
        eval_sequence(rules, input, subs, f, i, acc) is Some,
        within(acc, pos, input.len() as int),
    ensures
        within(eval_sequence(rules, input, subs, f, i, acc)->0, pos, input.len() as int),
    decreases f, subs, 0int, subs.len() - i, 0int,
{
    if 0 <= i < subs.len() {
        lemma_eval_within(rules, input, subs[i], acc.pos, f);
        let part = eval(rules, input, subs[i], acc.pos, f)->0;
        let next = sequence_step(acc, part);
        if next.is_ok() {
            lemma_sequence_within(rules, input, subs, pos, f, i + 1, next);
        }
    }
}

/// `lemma_eval_within`, for the rest of a choice at `pos`.
pub proof fn lemma_choice_within(
    rules: Seq<Rule>,
    input: Seq<char>,
    subs: Seq<RuleBody>,
    pos: int,
    f: nat,
    i: int,
    best: Parsed,
)
    requires
        eval_choice(rules, input, subs, pos, f, i, best) is Some,
        within(best, pos, input.len() as int),
    ensures
        within(eval_choice(rules, input, subs, pos, f, i, best)->0, pos, input.len() as int),
    decreases f, subs, 0int, subs.len() - i, 0int,
{
    if 0 <= i < subs.len() {
        lemma_eval_within(rules, input, subs[i], pos, f);
        let candidate = eval(rules, input, subs[i], pos, f)->0;
        let next = best.or(candidate);
        if !next.is_ok() {
            lemma_choice_within(rules, input, subs, pos, f, i + 1, next);
        }
    }
}

/// `lemma_eval_within`, for the rest of a repetition that started at `pos`.
pub proof fn lemma_repeat_within(
    rules: Seq<Rule>,
    input: Seq<char>,
    expr: RuleBody,
    pos: int,
    f: nat,
    count: nat,
    st: Outcome<()>,
)
    requires
        eval_repeat(rules, input, expr, f, count, st) is Some,
        within(st, pos, input.len() as int),
    ensures
        within(eval_repeat(rules, input, expr, f, count, st)->0, pos, input.len() as int),
    decreases f, expr, 0int, input.len() - st.pos, expr->min - count,
{
    match expr {
        RuleBody::Repeat { expr: item, min, max, delim } => {
            if !(max is Some && count >= max->0) {
                if count != 0 {
                    lemma_eval_within(rules, input, *delim, st.pos, f);
                }
                let s1 = if count == 0 {
                    st
                } else {
                    repeat_step(st, eval(rules, input, *delim, st.pos, f)->0)
                };
                if s1.is_ok() {
                    lemma_eval_within(rules, input, *item, s1.pos, f);
                    let s2 = repeat_step(s1, eval(rules, input, *item, s1.pos, f)->0);
                    if s2.is_ok() {
                        if repeat_goes_on(st.pos, s2.pos, input.len() as int, count, min as nat) {
                            lemma_repeat_within(rules, input, expr, pos, f, count + 1, s2);
                        }
                    }
                }
            }
        },
        _ => {},
    }
}

/// A match captures under exactly the names that `captured_names` gives
/// for the expression.
pub proof fn lemma_eval_captures(rules: Seq<Rule>, input: Seq<char>, expr: RuleBody, pos: int, f: nat)
    requires
        eval(rules, input, expr, pos, f) matches Some(o) && o.is_ok(),
    ensures
        (eval(rules, input, expr, pos, f)->0.value->0).0.dom() == captured_names(expr),
    decreases f, expr, 1int, 0int, 0int,
{
    let none = Map::<Seq<char>, Ast>::empty();
    assert(none.dom() =~= Set::<Seq<char>>::empty());
    match expr {
        RuleBody::Rule(_) => {},
        RuleBody::CharClass(_) => {},
        RuleBody::Literal(_) => {},
        RuleBody::Repeat { .. } => {
            lemma_repeat_captures(rules, input, expr, f, 0, Outcome::ok((), pos));
        },
        RuleBody::Sequence(subs) => {
            lemma_sequence_captures(rules, input, subs@, f, 0, Outcome::ok(Map::empty(), pos));
        },
        RuleBody::Choice(subs) => {
            lemma_choice_captures(rules, input, subs@, pos, f, 0, Outcome::err(pos));
        },
        RuleBody::NameBind(name, sub) => {
            lemma_eval_captures(rules, input, *sub, pos, f);
            let p = eval(rules, input, *sub, pos, f)->0.value->0;
            assert(p.0.insert(name@, p.1).dom() =~= p.0.dom().insert(name@));
        },
        RuleBody::Action(_, _) => {},
        RuleBody::SliceInput(_) => {},
    }
}

/// `lemma_eval_captures`, for the rest of a sequence.
pub proof fn lemma_sequence_captures(
    rules: Seq<Rule>,
    input: Seq<char>,
    subs: Seq<RuleBody>,
    f: nat,
    i: int,
    acc: Outcome<Captures>,
)
    requires
        0 <= i <= subs.len(),
        eval_sequence(rules, input, subs, f, i, acc) matches Some(o) && o.is_ok(),
        acc.value matches Some(c) && c.dom() == captured_among(subs, i),
    ensures
        (eval_sequence(rules, input, subs, f, i, acc)->0.value->0).0.dom() == captured_among(
            subs,
            subs.len() as int,
        ),
    decreases f, subs, 0int, subs.len() - i, 0int,
{
    if i < subs.len() {
        let part = eval(rules, input, subs[i], acc.pos, f)->0;
        let next = sequence_step(acc, part);
        if next.is_ok() {
            lemma_eval_captures(rules, input, subs[i], acc.pos, f);
            assert(acc.value->0.union_prefer_right((part.value->0).0).dom() =~= acc.value->0.dom().union(
                (part.value->0).0.dom(),
            ));
            lemma_sequence_captures(rules, input, subs, f, i + 1, next);
        }
    }
}

/// A choice that matches captures nothing.
pub proof fn lemma_choice_captures(
    rules: Seq<Rule>,
    input: Seq<char>,
    subs: Seq<RuleBody>,
    pos: int,
    f: nat,
    i: int,
    best: Parsed,
)
    requires
        eval_choice(rules, input, subs, pos, f, i, best) matches Some(o) && o.is_ok(),
        !best.is_ok(),
    ensures
        (eval_choice(rules, input, subs, pos, f, i, best)->0.value->0).0 == Map::<Seq<char>, Ast>::empty(),
    decreases subs.len() - i,
{
    if 0 <= i < subs.len() {
        let candidate = eval(rules, input, subs[i], pos, f)->0;
        let next = best.or(candidate);
        if !next.is_ok() {
            lemma_choice_captures(rules, input, subs, pos, f, i + 1, next);
        }
    }
}

/// A repetition that matches captures nothing.
pub proof fn lemma_repeat_captures(
    rules: Seq<Rule>,
    input: Seq<char>,
    expr: RuleBody,
    f: nat,
    count: nat,
    st: Outcome<()>,
)
    requires
        eval_repeat(rules, input, expr, f, count, st) matches Some(o) && o.is_ok(),
    ensures
        (eval_repeat(rules, input, expr, f, count, st)->0.value->0).0 == Map::<Seq<char>, Ast>::empty(),
    decreases input.len() - st.pos, expr->min - count,
{
    match expr {
        RuleBody::Repeat { expr: item, min, max, delim } => {
            if !(max is Some && count >= max->0) {
                let s1 = if count == 0 {
                    st
                } else {
                    repeat_step(st, eval(rules, input, *delim, st.pos, f)->0)
                };
                if s1.is_ok() {
                    let s2 = repeat_step(s1, eval(rules, input, *item, s1.pos, f)->0);
                    if s2.is_ok() && repeat_goes_on(st.pos, s2.pos, input.len() as int, count, min as nat) {
                        lemma_repeat_captures(rules, input, expr, f, count + 1, s2);
                    }
                }
            }
        },
        _ => {},
    }
}

/// An expression that refers to no rule has an outcome at every
/// position, whatever the bound.
pub proof fn lemma_rule_free(rules: Seq<Rule>, input: Seq<char>, expr: RuleBody, pos: int, f: nat)
    requires
        rule_free(expr),
    ensures
        eval(rules, input, expr, pos, f) is Some,
    decreases expr, 1int, 0int, 0int,
{
    match expr {
        RuleBody::Rule(_) => {},
        RuleBody::CharClass(_) => {},
        RuleBody::Literal(_) => {},
        RuleBody::Repeat { .. } => {
            lemma_repeat_rule_free(rules, input, expr, f, 0, Outcome::ok((), pos));
        },
        RuleBody::Sequence(subs) => {
            lemma_sequence_rule_free(rules, input, subs@, f, 0, Outcome::ok(Map::empty(), pos));
        },
        RuleBody::Choice(subs) => {
            lemma_choice_rule_free(rules, input, subs@, pos, f, 0, Outcome::err(pos));
        },
        RuleBody::NameBind(_, sub) => {
            lemma_rule_free(rules, input, *sub, pos, f);
        },
        RuleBody::Action(sub, _) => {
            lemma_rule_free(rules, input, *sub, pos, f);
        },
        RuleBody::SliceInput(sub) => {
            lemma_rule_free(rules, input, *sub, pos, f);
        },
    }
}

/// `lemma_rule_free`, for the rest of a sequence.
pub proof fn lemma_sequence_rule_free(
    rules: Seq<Rule>,
    input: Seq<char>,
    subs: Seq<RuleBody>,
    f: nat,
    i: int,
    acc: Outcome<Captures>,
)
    requires
        0 <= i,
        rule_free_among(subs, i),
    ensures
        eval_sequence(rules, input, subs, f, i, acc) is Some,
    decreases subs, 0int, subs.len() - i, 0int,
{
    if i < subs.len() {
        lemma_rule_free(rules, input, subs[i], acc.pos, f);
        let part = eval(rules, input, subs[i], acc.pos, f)->0;
        lemma_sequence_rule_free(rules, input, subs, f, i + 1, sequence_step(acc, part));
    }
}

/// `lemma_rule_free`, for the rest of a choice.
pub proof fn lemma_choice_rule_free(
    rules: Seq<Rule>,
    input: Seq<char>,
    subs: Seq<RuleBody>,
    pos: int,
    f: nat,
    i: int,
    best: Parsed,
)
    requires
        0 <= i,
        rule_free_among(subs, i),
    ensures
        eval_choice(rules, input, subs, pos, f, i, best) is Some,
    decreases subs, 0int, subs.len() - i, 0int,
{
    if i < subs.len() {
        lemma_rule_free(rules, input, subs[i], pos, f);
        let candidate = eval(rules, input, subs[i], pos, f)->0;
        lemma_choice_rule_free(rules, input, subs, pos, f, i + 1, best.or(candidate));
    }
}

/// `lemma_rule_free`, for the rest of a repetition.
pub proof fn lemma_repeat_rule_free(
    rules: Seq<Rule>,
    input: Seq<char>,
    expr: RuleBody,
    f: nat,
    count: nat,
    st: Outcome<()>,
)
    requires
        expr is Repeat,
        rule_free(expr),
    ensures
        eval_repeat(rules, input, expr, f, count, st) is Some,
    decreases expr, 0int, input.len() - st.pos, expr->min - count,
{
    match expr {
        RuleBody::Repeat { expr: item, min, max, delim } => {
            if !(max is Some && count >= max->0) {
                if count != 0 {
                    lemma_rule_free(rules, input, *delim, st.pos, f);
                }
                let s1 = if count == 0 {
                    st
                } else {
                    repeat_step(st, eval(rules, input, *delim, st.pos, f)->0)
                };
                if s1.is_ok() {
                    lemma_rule_free(rules, input, *item, s1.pos, f);
                    let s2 = repeat_step(s1, eval(rules, input, *item, s1.pos, f)->0);
                    if s2.is_ok() && repeat_goes_on(st.pos, s2.pos, input.len() as int, count, min as nat) {
                        lemma_repeat_rule_free(rules, input, expr, f, count + 1, s2);
                    }
                }
            }
        },
        _ => {},
    }
}

} // verus!
