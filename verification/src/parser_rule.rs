//! The interpreter: the outcome of a rule or expression on the input of a
//! session, the outcome of a rule at a position being remembered once it
//! is known.

use vstd::prelude::*;
use crate::action_result::ActionResult;
use crate::bindings::Bindings;
use crate::grammar::{CharClass, GrammarFile, RuleAction, RuleBody};
use crate::parser_core::{ParserState, PR};
use crate::parser_result::ParseResult;
use crate::properties::{
    lemma_eval_fuel, lemma_eval_unique, lemma_eval_within, lemma_expr_outcome, lemma_rule_outcome, within,
};
use crate::semantics::{
    action_value, action_values, eval, eval_choice, eval_literal, eval_repeat, eval_rule, eval_sequence,
    expr_defined, expr_outcome, failure, full_input, matched_len, rule_defined, rule_outcome, sequence_step,
    without_captures, Parsed,
};
use vstd::std_specs::iter::IteratorSpec;

verus! {

/// Evaluates an action over the captures of its scope: a captured value
/// for a name, or the error value where nothing was captured under it; a
/// literal string; a tagged node over the values of its arguments, in
/// their order.
pub fn apply_action(rule: &RuleAction, map: &Bindings) -> (r: ActionResult)
    ensures
        r@ == action_value(*rule, map@),
    decreases rule,
{
    match rule {
        RuleAction::Name(name) => {
            match map.get(name.as_str()) {
                Some(v) => v.clone(),
                None => ActionResult::Error,
            }
        },
        RuleAction::InputLiteral(lit) => ActionResult::Literal(lit.clone()),
        RuleAction::Construct(name, args) => {
            let mut args_vals: Vec<ActionResult> = Vec::new();
            let mut i: usize = 0;
            while i < args.len()
                invariant
                    rule matches RuleAction::Construct(_, a) && a == args,
                    i <= args.len(),
                    crate::action_result::asts_of(args_vals@, args_vals@.len() as int) == action_values(
                        args@,
                        map@,
                        i as int,
                    ),
                    args_vals@.len() == i,
                decreases args.len() - i,
            {
                let ghost before = args_vals@;
                let v = apply_action(&args[i], map);
                args_vals.push(v);
                proof {
                    crate::action_result::lemma_asts_of_same(args_vals@, before, i as int);
                }
                i += 1;
            }
            ActionResult::Construct(name.clone(), args_vals)
        },
    }
}

/// The outcome of a rule reference: the rule's value and no captures.
fn drop_captures(r: ParseResult<PR>) -> (c: ParseResult<PR>)
    ensures
        c@ == without_captures(r@),
{
    match r.result {
        Some(p) => ParseResult { result: Some((Bindings::new(), p.1)), pos: r.pos, best_error: r.best_error },
        None => ParseResult { result: None, pos: r.pos, best_error: r.best_error },
    }
}

impl ParserState {
    /// Matches `text` at `pos`, character by character.
    fn parse_literal(&self, pos: usize, text: &str) -> (res: ParseResult<PR>)
        ensures
            res@ == eval_literal(self.text(), text@, pos as int),
    {
        broadcast use vstd::string::axiom_spec_iter;
        broadcast use vstd::string::next_postcondition;

        let mut state: ParseResult<()> = ParseResult::new_ok((), pos);
        let mut it = text.chars();
        let ghost mut k: int = 0;
        loop
            invariant
                it.obeys_prophetic_iter_laws(),
                it.decrease() is Some,
                0 <= k <= text@.len(),
                it.remaining() == text@.skip(k),
                state.result is Some,
                state.best_error is None,
                state.pos == pos + k,
                matched_len(self.text(), text@, pos as int, k) == matched_len(self.text(), text@, pos as int, 0),
            decreases it.decrease()->0,
        {
            match it.next() {
                Some(c) => {
                    assert(c == text@[k]);
                    let single = CharClass { ranges: vec![(c, c)] };
                    let step = self.parse_charclass(state.pos, &single);
                    proof {
                        assert(single.ranges@[0] == (c, c));
                        assert(step.result is Some <==> (state.pos < self.text().len() && self.text()[state.pos as int] == c));
                        assert(text@.skip(k).drop_first() =~= text@.skip(k + 1));
                    }
                    state = state.followed_by(step).replace(());
                    if !state.is_ok() {
                        return ParseResult { result: None, pos: state.pos, best_error: state.best_error };
                    }
                    proof {
                        k = k + 1;
                    }
                },
                None => {
                    let end = state.pos;
                    return state.replace((Bindings::new(), ActionResult::Value((pos, end))));
                },
            }
        }
    }

    /// The outcome of the rule with index `idx` at `pos`: the one that the
    /// session remembers, or else the outcome of the rule's body, which
    /// the session then remembers. Under a limit, nothing where the body
    /// has no outcome within it.
    fn parse_rule_at(
        &mut self,
        pos: usize,
        rules: &GrammarFile,
        idx: usize,
        limit: Option<usize>,
        Ghost(fuel): Ghost<nat>,
    ) -> (res: (Option<ParseResult<PR>>, Ghost<nat>))
        requires
            old(self).wf(rules),
            idx < rules.rules@.len(),
            asked(limit, fuel, eval(rules.rules@, old(self).text(), rules.rules@[idx as int].body, pos as int, fuel)),
        ensures
            final(self).wf(rules),
            final(self).extends(old(self)),
            found(
                res.0,
                limit,
                eval(rules.rules@, old(self).text(), rules.rules@[idx as int].body, pos as int, res.1@),
                eval(rules.rules@, old(self).text(), rules.rules@[idx as int].body, pos as int, fuel),
            ),
            res.0 matches Some(r) ==> final(self).cached(idx as int, pos as int) == Some(r@),
        decreases fuel, 2int, rules.rules@[idx as int].body, 0int,
    {
        match self.recall(idx, pos) {
            Some(hit) => {
                let ghost g: nat;
                proof {
                    self.lemma_cached(rules, idx as int, pos as int);
                    g = choose|g: nat|
                        eval(rules.rules@, self.text(), rules.rules@[idx as int].body, pos as int, g)
                            == self.cached(idx as int, pos as int);
                    if eval(rules.rules@, self.text(), rules.rules@[idx as int].body, pos as int, fuel) is Some {
                        lemma_eval_unique(
                            rules.rules@,
                            self.text(),
                            rules.rules@[idx as int].body,
                            pos as int,
                            fuel,
                            g,
                        );
                    }
                }
                (Some(hit), Ghost(g))
            },
            None => {
                let (res, Ghost(w)) = self.parse_expr_at(pos, rules, &rules.rules[idx].body, limit, Ghost(fuel));
                match res {
                    Some(r) => {
                        let copy = crate::parser_core::copy_parsed(&r);
                        self.remember(rules, idx, pos, copy, Ghost(w));
                        (Some(r), Ghost(w))
                    },
                    None => (None, Ghost(w)),
                }
            },
        }
    }

    /// The outcome of `expr` at `pos`. Under a limit, nothing where it
    /// has no outcome within the limit.
    fn parse_expr_at(
        &mut self,
        pos: usize,
        rules: &GrammarFile,
        expr: &RuleBody,
        limit: Option<usize>,
        Ghost(fuel): Ghost<nat>,
    ) -> (res: (Option<ParseResult<PR>>, Ghost<nat>))
        requires
            old(self).wf(rules),
            asked(limit, fuel, eval(rules.rules@, old(self).text(), *expr, pos as int, fuel)),
        ensures
            final(self).wf(rules),
            final(self).extends(old(self)),
            found(
                res.0,
                limit,
                eval(rules.rules@, old(self).text(), *expr, pos as int, res.1@),
                eval(rules.rules@, old(self).text(), *expr, pos as int, fuel),
            ),
        decreases fuel, 1int, expr, 1int,
    {
        match expr {
            RuleBody::Rule(rule) => {
                let inner = match limit {
                    Some(depth) => {
                        if depth == 0 {
                            return (None, Ghost(0));
                        }
                        Some(depth - 1)
                    },
                    None => None,
                };
                match rules.find(rule.as_str()) {
                    Some(idx) => {
                        let (r, Ghost(w)) = self.parse_rule_at(pos, rules, idx, inner, Ghost((fuel - 1) as nat));
                        match r {
                            Some(r) => (Some(drop_captures(r)), Ghost(w + 1)),
                            None => (None, Ghost(0)),
                        }
                    },
                    None => (None, Ghost(0)),
                }
            },
            RuleBody::CharClass(cc) => {
                let result = self.parse_charclass(pos, cc);
                let new_pos = result.pos;
                (Some(result.replace((Bindings::new(), ActionResult::Value((pos, new_pos))))), Ghost(fuel))
            },
            RuleBody::Literal(literal) => (Some(self.parse_literal(pos, literal.as_str())), Ghost(fuel)),
            RuleBody::Repeat { expr: item, min, max, delim } => self.parse_repeat_at(
                pos,
                rules,
                expr,
                item,
                *min,
                *max,
                delim,
                limit,
                Ghost(fuel),
            ),
            RuleBody::Sequence(subs) => self.parse_sequence_at(pos, rules, expr, subs, limit, Ghost(fuel)),
            RuleBody::Choice(subs) => self.parse_choice_at(pos, rules, expr, subs, limit, Ghost(fuel)),
            RuleBody::NameBind(name, sub) => {
                let (res, w) = self.parse_expr_at(pos, rules, sub, limit, Ghost(fuel));
                match res {
                    Some(res) => {
                        let bound = match res.result {
                            Some(p) => {
                                let mut captures = p.0;
                                captures.insert(name.clone(), p.1.clone());
                                ParseResult { result: Some((captures, p.1)), pos: res.pos, best_error: res.best_error }
                            },
                            None => ParseResult { result: None, pos: res.pos, best_error: res.best_error },
                        };
                        (Some(bound), w)
                    },
                    None => (None, w),
                }
            },
            RuleBody::Action(sub, action) => {
                let (res, w) = self.parse_expr_at(pos, rules, sub, limit, Ghost(fuel));
                match res {
                    Some(res) => {
                        let acted = match res.result {
                            Some(p) => {
                                let value = apply_action(action, &p.0);
                                ParseResult {
                                    result: Some((Bindings::new(), value)),
                                    pos: res.pos,
                                    best_error: res.best_error,
                                }
                            },
                            None => ParseResult { result: None, pos: res.pos, best_error: res.best_error },
                        };
                        (Some(acted), w)
                    },
                    None => (None, w),
                }
            },
            RuleBody::SliceInput(sub) => {
                let (res, w) = self.parse_expr_at(pos, rules, sub, limit, Ghost(fuel));
                match res {
                    Some(res) => {
                        let new_pos = res.pos;
                        (Some(res.replace((Bindings::new(), ActionResult::Value((pos, new_pos))))), w)
                    },
                    None => (None, w),
                }
            },
        }
    }

    /// The outcome of the sequence `expr`, whose parts are `subs`, at `pos`.
    fn parse_sequence_at(
        &mut self,
        pos: usize,
        rules: &GrammarFile,
        expr: &RuleBody,
        subs: &Vec<RuleBody>,
        limit: Option<usize>,
        Ghost(fuel): Ghost<nat>,
    ) -> (res: (Option<ParseResult<PR>>, Ghost<nat>))
        requires
            old(self).wf(rules),
            expr matches RuleBody::Sequence(s) && s == subs,
            asked(limit, fuel, eval(rules.rules@, old(self).text(), *expr, pos as int, fuel)),
        ensures
            final(self).wf(rules),
            final(self).extends(old(self)),
            found(
                res.0,
                limit,
                eval(rules.rules@, old(self).text(), *expr, pos as int, res.1@),
                eval(rules.rules@, old(self).text(), *expr, pos as int, fuel),
            ),
        decreases fuel, 1int, expr, 0int,
    {
        let mut state: ParseResult<Bindings> = ParseResult::new_ok(Bindings::new(), pos);
        let mut i: usize = 0;
        // A bound from which on the rest of the sequence decides the whole.
        let ghost mut enough: nat = fuel;
        while i < subs.len()
            invariant
                expr matches RuleBody::Sequence(s) && s == subs,
                i <= subs.len(),
                self.wf(rules),
                self.extends(old(self)),
                state.result is Some,
                asked(limit, fuel, eval(rules.rules@, self.text(), *expr, pos as int, fuel)),
                forall|g: nat|
                    g >= enough ==> #[trigger] eval_sequence(rules.rules@, self.text(), subs@, g, i as int, state@)
                        == eval(rules.rules@, self.text(), *expr, pos as int, g),
                eval(rules.rules@, self.text(), *expr, pos as int, fuel) is Some ==> eval_sequence(
                    rules.rules@,
                    self.text(),
                    subs@,
                    fuel,
                    i as int,
                    state@,
                ) == eval(rules.rules@, self.text(), *expr, pos as int, fuel),
            decreases subs.len() - i,
        {
            let ghost before = state@;
            let (part, Ghost(w)) = self.parse_expr_at(state.pos, rules, &subs[i], limit, Ghost(fuel));
            let part = match part {
                Some(part) => part,
                None => {
                    return (None, Ghost(0));
                },
            };
            let ghost part_view = part@;
            let ghost next_enough = if w >= enough {
                w
            } else {
                enough
            };
            proof {
                let sub = subs@[i as int];
                if eval(rules.rules@, self.text(), sub, before.pos, fuel) is Some {
                    lemma_eval_unique(rules.rules@, self.text(), sub, before.pos, w, fuel);
                }
                assert forall|g: nat| g >= next_enough implies eval(
                    rules.rules@,
                    self.text(),
                    sub,
                    before.pos,
                    g,
                ) == Some(part@) by {
                    lemma_eval_fuel(rules.rules@, self.text(), sub, before.pos, w, g);
                }
            }
            let both = state.followed_by(part);
            match both.result {
                Some(pair) => {
                    let mut captures = pair.0;
                    captures.merge(pair.1.0);
                    state = ParseResult { result: Some(captures), pos: both.pos, best_error: both.best_error };
                },
                None => {
                    let failed = ParseResult { result: None, pos: both.pos, best_error: both.best_error };
                    proof {
                        assert(eval(rules.rules@, self.text(), subs@[i as int], before.pos, next_enough) == Some(
                            part_view,
                        ));
                        assert(eval_sequence(rules.rules@, self.text(), subs@, next_enough, i as int, before)
                            == Some(failed@));
                    }
                    return (Some(failed), Ghost(next_enough));
                },
            }
            proof {
                assert(state@ == sequence_step(before, part_view));
                assert forall|g: nat| g >= next_enough implies #[trigger] eval_sequence(
                    rules.rules@,
                    self.text(),
                    subs@,
                    g,
                    i + 1,
                    state@,
                ) == eval(rules.rules@, self.text(), *expr, pos as int, g) by {
                    assert(eval(rules.rules@, self.text(), subs@[i as int], before.pos, g) == Some(part_view));
                    assert(eval_sequence(rules.rules@, self.text(), subs@, g, i as int, before) == eval(
                        rules.rules@,
                        self.text(),
                        *expr,
                        pos as int,
                        g,
                    ));
                }
                enough = next_enough;
            }
            i += 1;
        }
        proof {
            assert(eval_sequence(rules.rules@, self.text(), subs@, enough, i as int, state@) == eval(
                rules.rules@,
                self.text(),
                *expr,
                pos as int,
                enough,
            ));
        }
        match state.result {
            Some(captures) => (
                Some(
                    ParseResult {
                        result: Some((captures, ActionResult::Error)),
                        pos: state.pos,
                        best_error: state.best_error,
                    },
                ),
                Ghost(enough),
            ),
            None => (None, Ghost(0)),
        }
    }

    /// The outcome of the choice `expr`, whose alternatives are `subs`, at
    /// `pos`.
    fn parse_choice_at(
        &mut self,
        pos: usize,
        rules: &GrammarFile,
        expr: &RuleBody,
        subs: &Vec<RuleBody>,
        limit: Option<usize>,
        Ghost(fuel): Ghost<nat>,
    ) -> (res: (Option<ParseResult<PR>>, Ghost<nat>))
        requires
            old(self).wf(rules),
            expr matches RuleBody::Choice(s) && s == subs,
            asked(limit, fuel, eval(rules.rules@, old(self).text(), *expr, pos as int, fuel)),
        ensures
            final(self).wf(rules),
            final(self).extends(old(self)),
            found(
                res.0,
                limit,
                eval(rules.rules@, old(self).text(), *expr, pos as int, res.1@),
                eval(rules.rules@, old(self).text(), *expr, pos as int, fuel),
            ),
        decreases fuel, 1int, expr, 0int,
    {
        let mut state: ParseResult<PR> = ParseResult::new_err(pos);
        let mut i: usize = 0;
        // A bound from which on the rest of the choice decides the whole.
        let ghost mut enough: nat = fuel;
        while i < subs.len()
            invariant
                expr matches RuleBody::Choice(s) && s == subs,
                i <= subs.len(),
                self.wf(rules),
                self.extends(old(self)),
                state.result is None,
                asked(limit, fuel, eval(rules.rules@, self.text(), *expr, pos as int, fuel)),
                forall|g: nat|
                    g >= enough ==> #[trigger] eval_choice(
                        rules.rules@,
                        self.text(),
                        subs@,
                        pos as int,
                        g,
                        i as int,
                        state@,
                    ) == eval(rules.rules@, self.text(), *expr, pos as int, g),
                eval(rules.rules@, self.text(), *expr, pos as int, fuel) is Some ==> eval_choice(
                    rules.rules@,
                    self.text(),
                    subs@,
                    pos as int,
                    fuel,
                    i as int,
                    state@,
                ) == eval(rules.rules@, self.text(), *expr, pos as int, fuel),
            decreases subs.len() - i,
        {
            let ghost before = state@;
            let (candidate, Ghost(w)) = self.parse_expr_at(pos, rules, &subs[i], limit, Ghost(fuel));
            let candidate = match candidate {
                Some(candidate) => candidate,
                None => {
                    return (None, Ghost(0));
                },
            };
            let ghost candidate_view = candidate@;
            let ghost next_enough = if w >= enough {
                w
            } else {
                enough
            };
            proof {
                let sub = subs@[i as int];
                if eval(rules.rules@, self.text(), sub, pos as int, fuel) is Some {
                    lemma_eval_unique(rules.rules@, self.text(), sub, pos as int, w, fuel);
                }
                assert forall|g: nat| g >= next_enough implies eval(
                    rules.rules@,
                    self.text(),
                    sub,
                    pos as int,
                    g,
                ) == Some(candidate@) by {
                    lemma_eval_fuel(rules.rules@, self.text(), sub, pos as int, w, g);
                }
            }
            state = state.or(candidate);
            assert(state@ == before.or(candidate_view));
            if state.is_ok() {
                let chosen = drop_captures(state);
                proof {
                    assert(eval(rules.rules@, self.text(), subs@[i as int], pos as int, next_enough) == Some(
                        candidate_view,
                    ));
                    assert(eval_choice(rules.rules@, self.text(), subs@, pos as int, next_enough, i as int, before)
                        == Some(chosen@));
                }
                return (Some(chosen), Ghost(next_enough));
            }
            proof {
                assert forall|g: nat| g >= next_enough implies #[trigger] eval_choice(
                    rules.rules@,
                    self.text(),
                    subs@,
                    pos as int,
                    g,
                    i + 1,
                    state@,
                ) == eval(rules.rules@, self.text(), *expr, pos as int, g) by {
                    assert(eval(rules.rules@, self.text(), subs@[i as int], pos as int, g) == Some(candidate_view));
                    assert(eval_choice(rules.rules@, self.text(), subs@, pos as int, g, i as int, before) == eval(
                        rules.rules@,
                        self.text(),
                        *expr,
                        pos as int,
                        g,
                    ));
                }
                enough = next_enough;
            }
            i += 1;
        }
        proof {
            assert(eval_choice(rules.rules@, self.text(), subs@, pos as int, enough, i as int, state@) == eval(
                rules.rules@,
                self.text(),
                *expr,
                pos as int,
                enough,
            ));
        }
        (Some(state), Ghost(enough))
    }

    /// The outcome of the repetition `expr` of `item`, with `delim` between
    /// occurrences, at `pos`.
    fn parse_repeat_at(
        &mut self,
        pos: usize,
        rules: &GrammarFile,
        expr: &RuleBody,
        item: &Box<RuleBody>,
        min: u64,
        max: Option<u64>,
        delim: &Box<RuleBody>,
        limit: Option<usize>,
        Ghost(fuel): Ghost<nat>,
    ) -> (res: (Option<ParseResult<PR>>, Ghost<nat>))
        requires
            old(self).wf(rules),
            expr matches RuleBody::Repeat { expr: e, min: lo, max: hi, delim: d } && e == item && lo == min && hi
                == max && d == delim,
            asked(limit, fuel, eval(rules.rules@, old(self).text(), *expr, pos as int, fuel)),
        ensures
            final(self).wf(rules),
            final(self).extends(old(self)),
            found(
                res.0,
                limit,
                eval(rules.rules@, old(self).text(), *expr, pos as int, res.1@),
                eval(rules.rules@, old(self).text(), *expr, pos as int, fuel),
            ),
        decreases fuel, 1int, expr, 0int,
    {
        let mut state: ParseResult<()> = ParseResult::new_ok((), pos);
        // The number of occurrences so far, as far as it can be counted.
        let mut count: u64 = 0;
        let ghost mut n: nat = 0;
        // A bound from which on the rest of the repetition decides the whole.
        let ghost mut enough: nat = fuel;
        loop
            invariant
                expr matches RuleBody::Repeat { expr: e, min: lo, max: hi, delim: d } && e == item && lo == min && hi
                    == max && d == delim,
                self.wf(rules),
                self.extends(old(self)),
                state.result is Some,
                count == (if n <= u64::MAX { n as int } else { u64::MAX as int }),
                asked(limit, fuel, eval(rules.rules@, self.text(), *expr, pos as int, fuel)),
                forall|g: nat|
                    g >= enough ==> #[trigger] eval_repeat(rules.rules@, self.text(), *expr, g, n, state@) == eval(
                        rules.rules@,
                        self.text(),
                        *expr,
                        pos as int,
                        g,
                    ),
                eval(rules.rules@, self.text(), *expr, pos as int, fuel) is Some ==> eval_repeat(
                    rules.rules@,
                    self.text(),
                    *expr,
                    fuel,
                    n,
                    state@,
                ) == eval(rules.rules@, self.text(), *expr, pos as int, fuel),
            decreases self.text().len() - state.pos, min - n,
        {
            let ghost before = state@;
            proof {
                assert(eval_repeat(rules.rules@, self.text(), *expr, enough, n, before) == eval(
                    rules.rules@,
                    self.text(),
                    *expr,
                    pos as int,
                    enough,
                ));
            }
            if max.is_some() && count >= max.unwrap() {
                return (Some(state.replace((Bindings::new(), ActionResult::Error))), Ghost(enough));
            }
            let mut cur: ParseResult<()> = ParseResult {
                result: Some(()),
                pos: state.pos,
                best_error: state.best_error,
            };
            let ghost mut next_enough: nat = enough;
            let ghost mut separator_view: Option<Parsed> = None;
            if count > 0 {
                let (separator, Ghost(w)) = self.parse_expr_at(state.pos, rules, delim, limit, Ghost(fuel));
                let separator = match separator {
                    Some(separator) => separator,
                    None => {
                        return (None, Ghost(0));
                    },
                };
                proof {
                    separator_view = Some(separator@);
                    lemma_eval_within(rules.rules@, self.text(), **delim, before.pos, w);
                    if eval(rules.rules@, self.text(), **delim, before.pos, fuel) is Some {
                        lemma_eval_unique(rules.rules@, self.text(), **delim, before.pos, w, fuel);
                    }
                    if w >= next_enough {
                        next_enough = w;
                    }
                    assert forall|g: nat| g >= next_enough implies eval(
                        rules.rules@,
                        self.text(),
                        **delim,
                        before.pos,
                        g,
                    ) == Some(separator@) by {
                        lemma_eval_fuel(rules.rules@, self.text(), **delim, before.pos, w, g);
                    }
                }
                cur = cur.followed_by(separator).replace(());
                if !cur.is_ok() {
                    proof {
                        assert(eval(rules.rules@, self.text(), **delim, before.pos, next_enough) == separator_view);
                        assert(eval_repeat(rules.rules@, self.text(), *expr, next_enough, n, before) == eval(
                            rules.rules@,
                            self.text(),
                            *expr,
                            pos as int,
                            next_enough,
                        ));
                    }
                    if count >= min {
                        let done = state.noting(cur.best_error).replace((Bindings::new(), ActionResult::Error));
                        return (Some(done), Ghost(next_enough));
                    } else {
                        let failed = ParseResult { result: None, pos: cur.pos, best_error: cur.best_error };
                        return (Some(failed), Ghost(next_enough));
                    }
                }
            }
            let ghost separated = cur@;
            let (occurrence, Ghost(w)) = self.parse_expr_at(cur.pos, rules, item, limit, Ghost(fuel));
            let occurrence = match occurrence {
                Some(occurrence) => occurrence,
                None => {
                    return (None, Ghost(0));
                },
            };
            let ghost occurrence_view = occurrence@;
            proof {
                lemma_eval_within(rules.rules@, self.text(), **item, separated.pos, w);
                if eval(rules.rules@, self.text(), **item, separated.pos, fuel) is Some {
                    lemma_eval_unique(rules.rules@, self.text(), **item, separated.pos, w, fuel);
                }
                if w >= next_enough {
                    next_enough = w;
                }
                assert forall|g: nat| g >= next_enough implies eval(
                    rules.rules@,
                    self.text(),
                    **item,
                    separated.pos,
                    g,
                ) == Some(occurrence@) by {
                    lemma_eval_fuel(rules.rules@, self.text(), **item, separated.pos, w, g);
                }
                if n > 0 {
                    assert forall|g: nat| g >= next_enough implies eval(
                        rules.rules@,
                        self.text(),
                        **delim,
                        before.pos,
                        g,
                    ) == separator_view by {
                        assert(g >= enough);
                    }
                    assert(eval(rules.rules@, self.text(), **delim, before.pos, next_enough) == separator_view);
                }
                assert(eval(rules.rules@, self.text(), **item, separated.pos, next_enough) == Some(occurrence_view));
                assert(eval_repeat(rules.rules@, self.text(), *expr, next_enough, n, before) == eval(
                    rules.rules@,
                    self.text(),
                    *expr,
                    pos as int,
                    next_enough,
                ));
            }
            let next = cur.followed_by(occurrence).replace(());
            if !next.is_ok() {
                if count >= min {
                    let done = state.noting(next.best_error).replace((Bindings::new(), ActionResult::Error));
                    return (Some(done), Ghost(next_enough));
                } else {
                    let failed = ParseResult { result: None, pos: next.pos, best_error: next.best_error };
                    return (Some(failed), Ghost(next_enough));
                }
            }
            if next.pos == state.pos && (count == u64::MAX || count + 1 >= min) {
                return (Some(next.replace((Bindings::new(), ActionResult::Error))), Ghost(next_enough));
            }
            state = next;
            if count < u64::MAX {
                count += 1;
            }
            proof {
                assert forall|g: nat| g >= next_enough implies #[trigger] eval_repeat(
                    rules.rules@,
                    self.text(),
                    *expr,
                    g,
                    n + 1,
                    state@,
                ) == eval(rules.rules@, self.text(), *expr, pos as int, g) by {
                    if n > 0 {
                        assert(eval(rules.rules@, self.text(), **delim, before.pos, g) == separator_view);
                    }
                    assert(eval(rules.rules@, self.text(), **item, separated.pos, g) == Some(occurrence_view));
                    assert(eval_repeat(rules.rules@, self.text(), *expr, g, n, before) == eval(
                        rules.rules@,
                        self.text(),
                        *expr,
                        pos as int,
                        g,
                    ));
                }
                enough = next_enough;
                n = n + 1;
            }
        }
    }

    /// Parses the rule `rule` at `pos`.
    ///
    /// The outcome is the one that the rule has at that position under
    /// `rules`. The session remembers it afterwards, and an outcome that
    /// it remembers is handed back as it is, without evaluating the rule
    /// again.
    ///
    /// The rule has to be defined at `pos`: it is declared, its
    /// evaluation there reaches only declared rules, and it ends. A rule
    /// that refers to itself before it has consumed any input is not
    /// defined. Where that is not known, `parse_rule_within` parses under
    /// a limit.
    pub fn parse_rule(&mut self, pos: usize, rules: &GrammarFile, rule: &str) -> (res: ParseResult<PR>)
        requires
            old(self).wf(rules),
            rule_defined(rules.rules@, old(self).text(), rule@, pos as int),
        ensures
            final(self).wf(rules),
            final(self).extends(old(self)),
            res@ == rule_outcome(rules.rules@, old(self).text(), rule@, pos as int),
            final(self).cached(rules.spec_find(rule@)->0, pos as int) == Some(res@),
            within(res@, pos as int, old(self).text().len() as int),
    {
        let ghost fuel = choose|fuel: nat| eval_rule(rules.rules@, self.text(), rule@, pos as int, fuel) is Some;
        proof {
            lemma_rule_outcome(rules.rules@, self.text(), rule@, pos as int, fuel);
            crate::laws::lemma_rule_positions_forward(rules.rules@, self.text(), rule@, pos as int);
        }
        let idx = rules.find(rule).unwrap();
        let (res, _) = self.parse_rule_at(pos, rules, idx, None, Ghost((fuel - 1) as nat));
        res.unwrap()
    }

    /// Parses the expression `expr` at `pos`.
    ///
    /// The outcome is the one that the expression has at that position
    /// under `rules`; see the module `semantics` for what each form of
    /// expression means. The expression has to be defined at `pos`, as
    /// for `parse_rule`.
    pub fn parse_expr(&mut self, pos: usize, rules: &GrammarFile, expr: &RuleBody) -> (res: ParseResult<PR>)
        requires
            old(self).wf(rules),
            expr_defined(rules.rules@, old(self).text(), *expr, pos as int),
        ensures
            final(self).wf(rules),
            final(self).extends(old(self)),
            res@ == expr_outcome(rules.rules@, old(self).text(), *expr, pos as int),
            within(res@, pos as int, old(self).text().len() as int),
    {
        let ghost fuel = choose|fuel: nat| eval(rules.rules@, self.text(), *expr, pos as int, fuel) is Some;
        proof {
            lemma_expr_outcome(rules.rules@, self.text(), *expr, pos as int, fuel);
            lemma_eval_within(rules.rules@, self.text(), *expr, pos as int, fuel);
        }
        let (res, _) = self.parse_expr_at(pos, rules, expr, None, Ghost(fuel));
        res.unwrap()
    }

    /// Parses the rule `rule` from the start of the input and asks that
    /// it consume all of it.
    ///
    /// A success that ends before the end of the input becomes a failure
    /// at the first character that it left; every other outcome is the
    /// rule's own.
    pub fn parse_full_input(&mut self, rules: &GrammarFile, rule: &str) -> (res: ParseResult<PR>)
        requires
            old(self).wf(rules),
            rule_defined(rules.rules@, old(self).text(), rule@, 0),
        ensures
            final(self).wf(rules),
            final(self).extends(old(self)),
            res@ == full_input(
                rule_outcome(rules.rules@, old(self).text(), rule@, 0),
                old(self).text().len() as int,
            ),
            res.is_ok() <==> rule_outcome(rules.rules@, old(self).text(), rule@, 0).is_ok() && rule_outcome(
                rules.rules@,
                old(self).text(),
                rule@,
                0,
            ).pos == old(self).text().len(),
    {
        let res = self.parse_rule(0, rules, rule);
        self.whole(res)
    }

    /// Turns a success that left input over into a failure where it
    /// ended.
    fn whole(&self, res: ParseResult<PR>) -> (r: ParseResult<PR>)
        ensures
            r@ == full_input(res@, self.text().len() as int),
    {
        if res.is_ok() && res.pos != self.input_len() {
            let leftover = res.pos;
            let noted = res.noting(Some(leftover));
            ParseResult { result: None, pos: noted.pos, best_error: noted.best_error }
        } else {
            res
        }
    }

    /// Parses the rule `rule` at `pos`, with rule references nested at
    /// most `depth` deep.
    ///
    /// Nothing is asked of the grammar. Where the rule is defined at
    /// `pos` within the limit, its outcome is handed back; what is handed
    /// back is always the rule's outcome. Nothing is handed back only
    /// where the rule has no outcome within the limit: a rule that is
    /// not declared is reached, or references nest deeper, as they do
    /// without end where a rule refers to itself before it has consumed
    /// any input. Outcomes that the session remembers do not count
    /// towards the limit.
    pub fn parse_rule_within(&mut self, pos: usize, rules: &GrammarFile, rule: &str, depth: usize) -> (res: Option<
        ParseResult<PR>,
    >)
        requires
            old(self).wf(rules),
        ensures
            final(self).wf(rules),
            final(self).extends(old(self)),
            res matches Some(r) ==> rule_defined(rules.rules@, old(self).text(), rule@, pos as int) && r@
                == rule_outcome(rules.rules@, old(self).text(), rule@, pos as int),
            res is None ==> eval_rule(rules.rules@, old(self).text(), rule@, pos as int, depth as nat) is None,
    {
        if depth == 0 {
            return None;
        }
        match rules.find(rule) {
            Some(idx) => {
                let (res, Ghost(w)) = self.parse_rule_at(pos, rules, idx, Some(depth - 1), Ghost((depth - 1) as nat));
                proof {
                    if res is Some {
                        lemma_rule_outcome(rules.rules@, self.text(), rule@, pos as int, w + 1);
                    }
                }
                res
            },
            None => None,
        }
    }

    /// Parses the expression `expr` at `pos`, with rule references nested
    /// at most `depth` deep; see `parse_rule_within`.
    pub fn parse_expr_within(&mut self, pos: usize, rules: &GrammarFile, expr: &RuleBody, depth: usize) -> (res:
        Option<ParseResult<PR>>)
        requires
            old(self).wf(rules),
        ensures
            final(self).wf(rules),
            final(self).extends(old(self)),
            res matches Some(r) ==> expr_defined(rules.rules@, old(self).text(), *expr, pos as int) && r@
                == expr_outcome(rules.rules@, old(self).text(), *expr, pos as int),
            res is None ==> eval(rules.rules@, old(self).text(), *expr, pos as int, depth as nat) is None,
    {
        let (res, Ghost(w)) = self.parse_expr_at(pos, rules, expr, Some(depth), Ghost(depth as nat));
        proof {
            if res is Some {
                lemma_expr_outcome(rules.rules@, self.text(), *expr, pos as int, w);
            }
        }
        res
    }

    /// Parses the rule `rule` from the start of the input, with rule
    /// references nested at most `depth` deep, and asks that it consume
    /// all of the input; see `parse_rule_within` and `parse_full_input`.
    pub fn parse_full_input_within(&mut self, rules: &GrammarFile, rule: &str, depth: usize) -> (res: Option<
        ParseResult<PR>,
    >)
        requires
            old(self).wf(rules),
        ensures
            final(self).wf(rules),
            final(self).extends(old(self)),
            res matches Some(r) ==> rule_defined(rules.rules@, old(self).text(), rule@, 0) && r@ == full_input(
                rule_outcome(rules.rules@, old(self).text(), rule@, 0),
                old(self).text().len() as int,
            ),
            res is None ==> eval_rule(rules.rules@, old(self).text(), rule@, 0, depth as nat) is None,
    {
        match self.parse_rule_within(0, rules, rule, depth) {
            Some(res) => Some(self.whole(res)),
            None => None,
        }
    }
}

/// What is asked of an evaluation: under a limit, that the ghost bound
/// be the limit; without one, that the evaluation have an outcome at the
/// ghost bound.
spec fn asked(limit: Option<usize>, fuel: nat, at_fuel: Option<Parsed>) -> bool {
    match limit {
        Some(depth) => fuel == depth,
        None => at_fuel is Some,
    }
}

/// What an evaluation hands back: an outcome, which is the outcome at
/// the bound that comes with it and, without a limit, at the ghost
/// bound; or nothing, under a limit within which there is no outcome.
spec fn found(
    res: Option<ParseResult<PR>>,
    limit: Option<usize>,
    at_witness: Option<Parsed>,
    at_fuel: Option<Parsed>,
) -> bool {
    match res {
        Some(r) => at_witness == Some(r@) && (limit is None ==> at_fuel == Some(r@)),
        None => limit is Some && at_fuel is None,
    }
}

} // verus!
