//! Laws of the engine, stated over the meaning of grammars.

use vstd::prelude::*;
use crate::grammar::{
    captured_names, in_ranges, lookup, rule_free, unbound_in, GrammarFile, Rule, RuleAction, RuleBody,
};
use crate::action_result::Ast;
use crate::parser_core::ParserState;
use crate::properties::{
    lemma_eval_captures, lemma_eval_within, lemma_expr_outcome, lemma_literal, lemma_rule_free,
    lemma_rule_outcome, within,
};
use crate::parser_result::Outcome;
use crate::semantics::{
    eval, eval_charclass, eval_choice, eval_repeat, eval_rule, eval_sequence, expr_defined, expr_outcome,
    full_input, repeat_step, rule_defined, rule_outcome, without_captures, Captures, Parsed,
};

verus! {

/// What a session remembers for a rule at a position is the outcome that
/// the rule has there: a remembered outcome never differs from a fresh
/// evaluation.
pub proof fn lemma_remembered_is_outcome(
    state: &ParserState,
    rules: &GrammarFile,
    name: Seq<char>,
    pos: int,
)
    requires
        state.wf(rules),
        rules.spec_find(name) is Some,
        state.cached(rules.spec_find(name)->0, pos) is Some,
    ensures
        rule_defined(rules.rules@, state.text(), name, pos),
        state.cached(rules.spec_find(name)->0, pos) == Some(rule_outcome(rules.rules@, state.text(), name, pos)),
{
    let idx = rules.spec_find(name)->0;
    state.lemma_cached(rules, idx, pos);
    let g = choose|g: nat|
        eval(rules.rules@, state.text(), rules.rules@[idx].body, pos, g) == state.cached(idx, pos);
    assert(eval_rule(rules.rules@, state.text(), name, pos, g + 1) == state.cached(idx, pos));
    lemma_rule_outcome(rules.rules@, state.text(), name, pos, g + 1);
}

/// Parsing the same rule at the same position twice in one session gives
/// the same outcome both times. `first` and `second` are what two calls
/// of `parse_rule` hand back, the session going from `s0` through `s1`
/// to `s2`.
pub proof fn lemma_parse_rule_twice(
    s0: &ParserState,
    s1: &ParserState,
    s2: &ParserState,
    rules: &GrammarFile,
    name: Seq<char>,
    pos: int,
    first: Parsed,
    second: Parsed,
)
    requires
        s0.wf(rules),
        rule_defined(rules.rules@, s0.text(), name, pos),
        s1.wf(rules),
        s1.extends(s0),
        first == rule_outcome(rules.rules@, s0.text(), name, pos),
        s1.cached(rules.spec_find(name)->0, pos) == Some(first),
        s2.wf(rules),
        s2.extends(s1),
        second == rule_outcome(rules.rules@, s1.text(), name, pos),
        s2.cached(rules.spec_find(name)->0, pos) == Some(second),
    ensures
        second == first,
        rule_defined(rules.rules@, s1.text(), name, pos),
        s2.cached(rules.spec_find(name)->0, pos) == s1.cached(rules.spec_find(name)->0, pos),
{
}

/// A parse never moves backwards and never leaves the input: the
/// position of an outcome, success or failure, and the deepest failure
/// that it records lie between the start position and the end of the
/// input.
pub proof fn lemma_positions_forward(rules: Seq<Rule>, input: Seq<char>, expr: RuleBody, pos: int)
    requires
        expr_defined(rules, input, expr, pos),
    ensures
        within(expr_outcome(rules, input, expr, pos), pos, input.len() as int),
        pos <= expr_outcome(rules, input, expr, pos).pos,
{
    let f = choose|fuel: nat| eval(rules, input, expr, pos, fuel) is Some;
    lemma_eval_within(rules, input, expr, pos, f);
}

/// `lemma_positions_forward`, for a rule.
pub proof fn lemma_rule_positions_forward(rules: Seq<Rule>, input: Seq<char>, name: Seq<char>, pos: int)
    requires
        rule_defined(rules, input, name, pos),
    ensures
        within(rule_outcome(rules, input, name, pos), pos, input.len() as int),
        pos <= rule_outcome(rules, input, name, pos).pos,
{
    let f = choose|fuel: nat| eval_rule(rules, input, name, pos, fuel) is Some;
    let idx = lookup(rules, name)->0;
    lemma_eval_within(rules, input, rules[idx].body, pos, (f - 1) as nat);
}

/// A literal is defined everywhere. It matches exactly where the input
/// holds its text, and a match ends one text's length after its start:
/// a match of a literal that is not empty advances.
pub proof fn lemma_literal_advances(rules: Seq<Rule>, input: Seq<char>, expr: RuleBody, pos: int)
    requires
        expr is Literal,
    ensures
        expr_defined(rules, input, expr, pos),
        expr_outcome(rules, input, expr, pos).is_ok() <==> (expr->Literal_0@.len() == 0 || (0 <= pos && pos
            + expr->Literal_0@.len() <= input.len() && input.subrange(pos, pos + expr->Literal_0@.len())
            == expr->Literal_0@)),
        expr_outcome(rules, input, expr, pos).is_ok() ==> expr_outcome(rules, input, expr, pos).pos == pos
            + expr->Literal_0@.len(),
        expr_outcome(rules, input, expr, pos).is_ok() && expr->Literal_0@.len() > 0 ==> expr_outcome(
            rules,
            input,
            expr,
            pos,
        ).pos > pos,
{
    lemma_literal(input, expr->Literal_0@, pos);
    lemma_expr_outcome(rules, input, expr, pos, 0);
}

/// A parse of the full input succeeds exactly when the rule succeeds and
/// ends at the end of the input; it then is the rule's outcome.
pub proof fn lemma_full_input(o: Parsed, len: int)
    ensures
        full_input(o, len).is_ok() <==> o.is_ok() && o.pos == len,
        full_input(o, len).is_ok() ==> full_input(o, len) == o,
        !o.is_ok() ==> full_input(o, len) == o,
        full_input(o, len).pos == o.pos,
{
}

/// A rule whose body is a reference to another rule is defined exactly
/// where that rule is, and has that rule's outcome there, less its
/// captures: the two accept the same inputs and produce the same values.
pub proof fn lemma_indirection(rules: Seq<Rule>, input: Seq<char>, name: Seq<char>, target: Seq<char>, pos: int)
    requires
        lookup(rules, name) matches Some(idx) && rules[idx].body matches RuleBody::Rule(t) && t@ == target,
    ensures
        rule_defined(rules, input, name, pos) <==> rule_defined(rules, input, target, pos),
        rule_defined(rules, input, name, pos) ==> rule_outcome(rules, input, name, pos) == without_captures(
            rule_outcome(rules, input, target, pos),
        ),
{
    let idx = lookup(rules, name)->0;
    if rule_defined(rules, input, name, pos) {
        let f = choose|fuel: nat| eval_rule(rules, input, name, pos, fuel) is Some;
        assert(eval_rule(rules, input, target, pos, (f - 1) as nat) is Some);
        lemma_rule_outcome(rules, input, target, pos, (f - 1) as nat);
        lemma_rule_outcome(rules, input, name, pos, f);
    }
    if rule_defined(rules, input, target, pos) {
        let g = choose|fuel: nat| eval_rule(rules, input, target, pos, fuel) is Some;
        assert(eval_rule(rules, input, name, pos, g + 1) is Some);
        lemma_rule_outcome(rules, input, name, pos, g + 1);
    }
}

/// Whether the optional position `a` is at least the optional position
/// `b`, none lying below every position.
pub open spec fn at_least(a: Option<int>, b: Option<int>) -> bool {
    b matches Some(y) ==> (a matches Some(x) && x >= y)
}

/// Composing outcomes never loses a failure: the deepest failure of a
/// composition is at least that of each of its parts.
pub proof fn lemma_deepest_is_kept<V, W>(a: Outcome<V>, b: Outcome<W>, c: Outcome<V>, d: Option<int>)
    ensures
        at_least(a.followed_by(b).deepest, a.deepest),
        at_least(a.followed_by(b).deepest, b.deepest),
        at_least(a.or(c).deepest, a.deepest),
        at_least(a.or(c).deepest, c.deepest),
        at_least(a.noting(d).deepest, a.deepest),
        at_least(a.noting(d).deepest, d),
{
}

/// The deepest failure that a choice records never recedes as it tries
/// more alternatives: its outcome records one that is at least the one
/// of the best failure so far.
pub proof fn lemma_choice_deepest_grows(
    rules: Seq<Rule>,
    input: Seq<char>,
    subs: Seq<RuleBody>,
    pos: int,
    fuel: nat,
    i: int,
    best: Parsed,
)
    requires
        eval_choice(rules, input, subs, pos, fuel, i, best) is Some,
    ensures
        at_least(eval_choice(rules, input, subs, pos, fuel, i, best)->0.deepest, best.deepest),
    decreases subs.len() - i,
{
    if 0 <= i < subs.len() {
        let candidate = eval(rules, input, subs[i], pos, fuel)->0;
        let next = best.or(candidate);
        if !next.is_ok() {
            lemma_choice_deepest_grows(rules, input, subs, pos, fuel, i + 1, next);
        }
    }
}

/// The captures of a match are known from the expression alone: it
/// captures under exactly the names of `captured_names`. So an action
/// whose names are all among those of its body finds a capture for each
/// of them, and never yields the error value for an unbound name.
pub proof fn lemma_captures_are_known(rules: Seq<Rule>, input: Seq<char>, expr: RuleBody, pos: int)
    requires
        expr_defined(rules, input, expr, pos),
        expr_outcome(rules, input, expr, pos).is_ok(),
    ensures
        (expr_outcome(rules, input, expr, pos).value->0).0.dom() == captured_names(expr),
        forall|action: RuleAction|
            unbound_in(action, captured_names(expr)) is None ==> #[trigger] unbound_in(
                action,
                (expr_outcome(rules, input, expr, pos).value->0).0.dom(),
            ) is None,
{
    let f = choose|fuel: nat| eval(rules, input, expr, pos, fuel) is Some;
    lemma_eval_captures(rules, input, expr, pos, f);
}

/// An expression that refers to no rule is defined at every position of
/// every input: it may be parsed without a limit, and `parse_expr_within`
/// hands back its outcome under any limit.
pub proof fn lemma_rule_free_is_defined(rules: Seq<Rule>, input: Seq<char>, expr: RuleBody, pos: int, depth: nat)
    requires
        rule_free(expr),
    ensures
        expr_defined(rules, input, expr, pos),
        eval(rules, input, expr, pos, depth) == Some(expr_outcome(rules, input, expr, pos)),
{
    lemma_rule_free(rules, input, expr, pos, depth);
    lemma_expr_outcome(rules, input, expr, pos, depth);
}

/// Where the longest run of characters of a class from `pos` on ends.
pub open spec fn class_run_end(input: Seq<char>, ranges: Seq<(char, char)>, pos: int) -> int
    decreases input.len() - pos,
{
    if 0 <= pos < input.len() && in_ranges(ranges, input[pos]) {
        class_run_end(input, ranges, pos + 1)
    } else {
        pos
    }
}

/// Whether `expr` is a class repeated any number of times, nothing
/// standing between the occurrences.
pub open spec fn is_star_of_class(expr: RuleBody, ranges: Seq<(char, char)>) -> bool {
    &&& expr matches RuleBody::Repeat { expr: item, min, max, delim }
    &&& min == 0
    &&& max is None
    &&& *item matches RuleBody::CharClass(cc)
    &&& cc.ranges@ == ranges
    &&& *delim matches RuleBody::Sequence(none)
    &&& none@.len() == 0
}

/// A run of a class ends at the end of the input exactly if every
/// character from `pos` on belongs to the class.
pub proof fn lemma_class_run_end(input: Seq<char>, ranges: Seq<(char, char)>, pos: int)
    requires
        0 <= pos <= input.len(),
    ensures
        pos <= class_run_end(input, ranges, pos) <= input.len(),
        class_run_end(input, ranges, pos) == input.len() <==> forall|i: int|
            pos <= i < input.len() ==> in_ranges(ranges, #[trigger] input[i]),
    decreases input.len() - pos,
{
    if pos < input.len() && in_ranges(ranges, input[pos]) {
        lemma_class_run_end(input, ranges, pos + 1);
    }
}

/// One character of a class is matched exactly where the input holds a
/// character of the class, and the match ends one character further on.
pub proof fn lemma_class_matches_one(rules: Seq<Rule>, input: Seq<char>, expr: RuleBody, pos: int)
    requires
        expr is CharClass,
    ensures
        expr_defined(rules, input, expr, pos),
        expr_outcome(rules, input, expr, pos).is_ok() <==> 0 <= pos < input.len() && in_ranges(
            expr->CharClass_0.ranges@,
            input[pos],
        ),
        expr_outcome(rules, input, expr, pos).is_ok() ==> expr_outcome(rules, input, expr, pos).pos == pos + 1,
        !expr_outcome(rules, input, expr, pos).is_ok() ==> expr_outcome(rules, input, expr, pos).pos == pos,
{
    lemma_expr_outcome(rules, input, expr, pos, 0);
}

/// `lemma_star_matches_the_run`, for the rest of the repetition.
proof fn lemma_star_rest(
    rules: Seq<Rule>,
    input: Seq<char>,
    expr: RuleBody,
    ranges: Seq<(char, char)>,
    f: nat,
    count: nat,
    st: Outcome<()>,
)
    requires
        is_star_of_class(expr, ranges),
        st.is_ok(),
    ensures
        eval_repeat(rules, input, expr, f, count, st) matches Some(o) && o.is_ok() && o.pos == class_run_end(
            input,
            ranges,
            st.pos,
        ),
    decreases input.len() - st.pos,
{
    let item = *expr->Repeat_expr;
    let delim = *expr->Repeat_delim;
    let none = delim->Sequence_0@;
    let nothing: Outcome<Captures> = Outcome::ok(Map::empty(), st.pos);
    assert(eval_sequence(rules, input, none, f, 0, nothing) == Some(
        nothing.with_value((Map::<Seq<char>, Ast>::empty(), Ast::Error)),
    ));
    assert(eval(rules, input, delim, st.pos, f) == eval_sequence(rules, input, none, f, 0, nothing));
    let s1 = if count == 0 {
        st
    } else {
        repeat_step(st, eval(rules, input, delim, st.pos, f)->0)
    };
    assert(s1.is_ok() && s1.pos == st.pos);
    let one = eval_charclass(input, ranges, st.pos);
    assert(eval(rules, input, item, s1.pos, f) == Some(
        one.with_value((Map::<Seq<char>, Ast>::empty(), Ast::Value(st.pos, st.pos + 1))),
    ));
    let s2 = repeat_step(s1, eval(rules, input, item, s1.pos, f)->0);
    if s2.is_ok() {
        assert(s2.pos == st.pos + 1 && s2.pos <= input.len());
        lemma_star_rest(rules, input, expr, ranges, f, count + 1, s2);
    }
}

/// A class repeated any number of times matches the longest run of
/// characters of the class: it always succeeds, and ends where the run
/// ends. So it accepts a whole input exactly if every character of the
/// input belongs to the class: the empty input, inputs of any length
/// made of such characters only, and no input that holds another
/// character anywhere.
pub proof fn lemma_star_matches_the_run(
    rules: Seq<Rule>,
    input: Seq<char>,
    expr: RuleBody,
    ranges: Seq<(char, char)>,
    pos: int,
)
    requires
        is_star_of_class(expr, ranges),
    ensures
        expr_defined(rules, input, expr, pos),
        expr_outcome(rules, input, expr, pos).is_ok(),
        expr_outcome(rules, input, expr, pos).pos == class_run_end(input, ranges, pos),
        pos == 0 ==> (full_input(expr_outcome(rules, input, expr, pos), input.len() as int).is_ok() <==> forall|
            i: int,
        |
            0 <= i < input.len() ==> in_ranges(ranges, #[trigger] input[i])),
{
    lemma_star_rest(rules, input, expr, ranges, 0, 0, Outcome::ok((), pos));
    lemma_expr_outcome(rules, input, expr, pos, 0);
    if pos == 0 {
        lemma_class_run_end(input, ranges, 0);
    }
}

} // verus!
