//! What a grammar expression means: the outcome of matching it against an
//! input at a position, as a mathematical function.
//!
//! Rules may refer to each other, so the meaning is defined with a bound
//! on the depth of rule references (`fuel`). An evaluation that needs more
//! than the bound, or that reaches a rule that is not declared, has no
//! value at that bound. An expression *is defined* at a position when some
//! bound gives it a value; every larger bound then gives the same one.
//! Left-recursive grammars are not defined where the recursion is reached.

use vstd::prelude::*;
use crate::action_result::Ast;
use crate::grammar::{in_ranges, lookup, Rule, RuleAction, RuleBody};
use crate::parser_result::Outcome;

verus! {

/// The captures of a scope: values by name.
pub type Captures = Map<Seq<char>, Ast>;

/// What a rule or expression produces: its captures and its value.
pub type Product = (Captures, Ast);

/// The outcome of evaluating a rule or expression.
pub type Parsed = Outcome<Product>;

/// The value of an action over the captures of its scope.
pub open spec fn action_value(action: RuleAction, env: Captures) -> Ast
    decreases action, 0int,
{
    match action {
        RuleAction::Name(name) => if env.contains_key(name@) {
            env[name@]
        } else {
            Ast::Error
        },
        RuleAction::InputLiteral(text) => Ast::Literal(text@),
        RuleAction::Construct(tag, args) => Ast::Construct(
            tag@,
            action_values(args@, env, args@.len() as int),
        ),
    }
}

/// The values of the first `n` of `args`, in order.
pub open spec fn action_values(args: Seq<RuleAction>, env: Captures, n: int) -> Seq<Ast>
    decreases args, n,
{
    if 0 < n <= args.len() {
        action_values(args, env, n - 1).push(action_value(args[n - 1], env))
    } else {
        Seq::empty()
    }
}

/// One character of a class at `pos`: the character and the next
/// position, or a failure at `pos`.
pub open spec fn eval_charclass(input: Seq<char>, ranges: Seq<(char, char)>, pos: int) -> Outcome<char> {
    if 0 <= pos < input.len() && in_ranges(ranges, input[pos]) {
        Outcome::ok(input[pos], pos + 1)
    } else {
        Outcome::err(pos)
    }
}

/// How many characters of `text` from index `k` on, added to `k`, match
/// the input from `pos + k` on one by one.
pub open spec fn matched_len(input: Seq<char>, text: Seq<char>, pos: int, k: int) -> int
    decreases text.len() - k,
{
    if 0 <= k < text.len() && 0 <= pos + k < input.len() && input[pos + k] == text[k] {
        matched_len(input, text, pos, k + 1)
    } else {
        k
    }
}

/// A literal at `pos`: the span of the whole text if every character
/// matches, a failure at the first character that does not.
pub open spec fn eval_literal(input: Seq<char>, text: Seq<char>, pos: int) -> Parsed {
    let k = matched_len(input, text, pos, 0);
    if k == text.len() {
        Outcome::ok((Map::empty(), Ast::Value(pos, pos + k)), pos + k)
    } else {
        Outcome::err(pos + k)
    }
}

/// A failure with the position and diagnostic state of `o`.
pub open spec fn failure<V, W>(o: Outcome<V>) -> Outcome<W> {
    Outcome { value: None, pos: o.pos, deepest: o.deepest }
}

/// The outcome of a rule reference: the rule's value, none of its captures.
pub open spec fn without_captures(o: Parsed) -> Parsed {
    match o.value {
        Some(p) => o.with_value((Map::empty(), p.1)),
        None => o,
    }
}

/// The outcome of a capture: the value recorded under `name`.
pub open spec fn bound(o: Parsed, name: Seq<char>) -> Parsed {
    match o.value {
        Some(p) => o.with_value((p.0.insert(name, p.1), p.1)),
        None => o,
    }
}

/// The outcome of an action: its value over the captures of the body, and
/// no captures for the enclosing scope.
pub open spec fn acted(o: Parsed, action: RuleAction) -> Parsed {
    match o.value {
        Some(p) => o.with_value((Map::empty(), action_value(action, p.0))),
        None => o,
    }
}

/// The outcome of a slice: the span from `pos` to where the body ended.
pub open spec fn sliced(o: Parsed, pos: int) -> Parsed {
    o.with_value((Map::empty(), Ast::Value(pos, o.pos)))
}

/// A sequence's state after one more part: the part's captures merged
/// into those so far, a later capture replacing an earlier one.
pub open spec fn sequence_step(acc: Outcome<Captures>, part: Parsed) -> Outcome<Captures> {
    match part.value {
        Some(p) => acc.followed_by(part).with_value(acc.value->0.union_prefer_right(p.0)),
        None => failure(acc.followed_by(part)),
    }
}

/// A repetition's state after a delimiter or an occurrence.
pub open spec fn repeat_step(st: Outcome<()>, part: Parsed) -> Outcome<()> {
    st.followed_by(part).with_value(())
}

/// A repetition's outcome once it stops in state `st`: no captures and a
/// placeholder value.
pub open spec fn repeat_done(st: Outcome<()>) -> Parsed {
    st.with_value((Map::empty(), Ast::Error))
}

/// A repetition's outcome when a delimiter or an occurrence fails after
/// `count` occurrences: a success in the state before the attempt if
/// `min` is reached, the failure if not. The failed attempt is recorded
/// either way.
pub open spec fn repeat_stop(st: Outcome<()>, failed: Outcome<()>, count: nat, min: nat) -> Parsed {
    if count >= min {
        repeat_done(st.noting(failed.deepest))
    } else {
        failure(failed)
    }
}

/// The outcome of `expr` at `pos`, if it is reached with rule references
/// nested at most `fuel` deep.
pub open spec fn eval(rules: Seq<Rule>, input: Seq<char>, expr: RuleBody, pos: int, fuel: nat) -> Option<
    Parsed,
>
    decreases fuel, expr, 1int, 0int, 0int,
{
    match expr {
        RuleBody::Rule(name) => {
            if fuel == 0 {
                None
            } else {
                match lookup(rules, name@) {
                    Some(idx) => match eval(rules, input, rules[idx].body, pos, (fuel - 1) as nat) {
                        Some(o) => Some(without_captures(o)),
                        None => None,
                    },
                    None => None,
                }
            }
        },
        RuleBody::CharClass(cc) => Some(
            eval_charclass(input, cc.ranges@, pos).with_value((Map::empty(), Ast::Value(pos, pos + 1))),
        ),
        RuleBody::Literal(text) => Some(eval_literal(input, text@, pos)),
        RuleBody::Repeat { .. } => eval_repeat(rules, input, expr, fuel, 0, Outcome::ok((), pos)),
        RuleBody::Sequence(subs) => eval_sequence(rules, input, subs@, fuel, 0, Outcome::ok(Map::empty(), pos)),
        RuleBody::Choice(subs) => eval_choice(rules, input, subs@, pos, fuel, 0, Outcome::err(pos)),
        RuleBody::NameBind(name, sub) => match eval(rules, input, *sub, pos, fuel) {
            Some(o) => Some(bound(o, name@)),
            None => None,
        },
        RuleBody::Action(sub, action) => match eval(rules, input, *sub, pos, fuel) {
            Some(o) => Some(acted(o, action)),
            None => None,
        },
        RuleBody::SliceInput(sub) => match eval(rules, input, *sub, pos, fuel) {
            Some(o) => Some(sliced(o, pos)),
            None => None,
        },
    }
}

/// The outcome of a sequence whose first `i` parts have matched, leaving
/// the state `acc`: the remaining parts in order, each from where the one
/// before ended. The first part that fails fails the sequence. A
/// sequence's own value is a placeholder.
pub open spec fn eval_sequence(
    rules: Seq<Rule>,
    input: Seq<char>,
    subs: Seq<RuleBody>,
    fuel: nat,
    i: int,
    acc: Outcome<Captures>,
) -> Option<Parsed>
    decreases fuel, subs, 0int, subs.len() - i, 0int,
{
    if 0 <= i < subs.len() {
        match eval(rules, input, subs[i], acc.pos, fuel) {
            Some(part) => {
                let next = sequence_step(acc, part);
                if next.is_ok() {
                    eval_sequence(rules, input, subs, fuel, i + 1, next)
                } else {
                    Some(failure(next))
                }
            },
            None => None,
        }
    } else {
        Some(acc.with_value((acc.value->0, Ast::Error)))
    }
}

/// The outcome of a choice at `pos` whose first `i` alternatives have
/// failed, `best` being the best failure among them: the remaining
/// alternatives in order, each from `pos`. The first that succeeds is
/// the outcome, with its value and no captures; if none does, the
/// failure that got furthest.
pub open spec fn eval_choice(
    rules: Seq<Rule>,
    input: Seq<char>,
    subs: Seq<RuleBody>,
    pos: int,
    fuel: nat,
    i: int,
    best: Parsed,
) -> Option<Parsed>
    decreases fuel, subs, 0int, subs.len() - i, 0int,
{
    if 0 <= i < subs.len() {
        match eval(rules, input, subs[i], pos, fuel) {
            Some(candidate) => {
                let next = best.or(candidate);
                if next.is_ok() {
                    Some(without_captures(next))
                } else {
                    eval_choice(rules, input, subs, pos, fuel, i + 1, next)
                }
            },
            None => None,
        }
    } else {
        Some(best)
    }
}

/// Whether a repetition goes on after an occurrence that took it from
/// `before` to `after`, `count` occurrences having matched before it: it
/// does where the occurrence advanced, and where `min` is not reached yet.
pub open spec fn repeat_goes_on(before: int, after: int, len: int, count: nat, min: nat) -> bool {
    before < after <= len || (after == before && count + 1 < min)
}

/// The outcome of the repetition `expr` after `count` occurrences have
/// matched, leaving the state `st`.
///
/// With `max` occurrences it stops. Otherwise a delimiter is tried, unless
/// this is the first occurrence, and then an occurrence; if either fails
/// the repetition stops as `repeat_stop` says. An occurrence that matched
/// without advancing stops the repetition as soon as `min` is reached.
pub open spec fn eval_repeat(
    rules: Seq<Rule>,
    input: Seq<char>,
    expr: RuleBody,
    fuel: nat,
    count: nat,
    st: Outcome<()>,
) -> Option<Parsed>
    decreases fuel, expr, 0int, input.len() - st.pos, expr->min - count,
{
    match expr {
        RuleBody::Repeat { expr: item, min, max, delim } => {
            if max is Some && count >= max->0 {
                Some(repeat_done(st))
            } else {
                let separated = if count == 0 {
                    Some(st)
                } else {
                    match eval(rules, input, *delim, st.pos, fuel) {
                        Some(d) => Some(repeat_step(st, d)),
                        None => None,
                    }
                };
                match separated {
                    Some(s1) => {
                        if !s1.is_ok() {
                            Some(repeat_stop(st, s1, count, min as nat))
                        } else {
                            match eval(rules, input, *item, s1.pos, fuel) {
                                Some(x) => {
                                    let s2 = repeat_step(s1, x);
                                    if !s2.is_ok() {
                                        Some(repeat_stop(st, s2, count, min as nat))
                                    } else if repeat_goes_on(st.pos, s2.pos, input.len() as int, count, min as nat) {
                                        eval_repeat(rules, input, expr, fuel, count + 1, s2)
                                    } else {
                                        Some(repeat_done(s2))
                                    }
                                },
                                None => None,
                            }
                        }
                    },
                    None => None,
                }
            }
        },
        _ => None,
    }
}

/// The outcome of the rule that `name` refers to, with its captures, if
/// it is reached with rule references nested at most `fuel` deep.
pub open spec fn eval_rule(rules: Seq<Rule>, input: Seq<char>, name: Seq<char>, pos: int, fuel: nat) -> Option<
    Parsed,
> {
    if fuel == 0 {
        None
    } else {
        match lookup(rules, name) {
            Some(idx) => eval(rules, input, rules[idx].body, pos, (fuel - 1) as nat),
            None => None,
        }
    }
}

/// Whether `expr` has an outcome at `pos`: its evaluation reaches only
/// declared rules and ends.
pub open spec fn expr_defined(rules: Seq<Rule>, input: Seq<char>, expr: RuleBody, pos: int) -> bool {
    exists|fuel: nat| eval(rules, input, expr, pos, fuel) is Some
}

/// The outcome of `expr` at `pos`, where it is defined.
pub open spec fn expr_outcome(rules: Seq<Rule>, input: Seq<char>, expr: RuleBody, pos: int) -> Parsed {
    eval(rules, input, expr, pos, choose|fuel: nat| eval(rules, input, expr, pos, fuel) is Some)->0
}

/// Whether the rule `name` has an outcome at `pos`: it is declared, and
/// its evaluation reaches only declared rules and ends.
pub open spec fn rule_defined(rules: Seq<Rule>, input: Seq<char>, name: Seq<char>, pos: int) -> bool {
    exists|fuel: nat| eval_rule(rules, input, name, pos, fuel) is Some
}

/// The outcome of the rule `name` at `pos`, where it is defined.
pub open spec fn rule_outcome(rules: Seq<Rule>, input: Seq<char>, name: Seq<char>, pos: int) -> Parsed {
    eval_rule(rules, input, name, pos, choose|fuel: nat| eval_rule(rules, input, name, pos, fuel) is Some)->0
}

/// The outcome of a parse that has to consume an input of length `len`:
/// a success that ends elsewhere is a failure where it ended.
pub open spec fn full_input(o: Parsed, len: int) -> Parsed {
    if o.is_ok() && o.pos != len {
        failure(o.noting(Some(o.pos)))
    } else {
        o
    }
}

} // verus!
