//! The state of one parsing session: the input and the outcomes that
//! rules have had at positions of it.

use vstd::prelude::*;
use std::collections::HashMap;
use crate::action_result::ActionResult;
use crate::bindings::Bindings;
use crate::grammar::{CharClass, GrammarFile};
use crate::parser_result::ParseResult;
use crate::properties::lemma_eval_unique;
use crate::semantics::{eval, eval_charclass, Parsed};
use crate::text::to_chars;

verus! {

broadcast use vstd::std_specs::hash::group_hash_axioms;

/// What a rule or expression produces: its captures and its value.
pub type PR = (Bindings, ActionResult);

/// A copy of an outcome: it stands for the same mathematical outcome.
pub fn copy_parsed(r: &ParseResult<PR>) -> (c: ParseResult<PR>)
    ensures
        c@ == r@,
{
    match &r.result {
        Some(p) => ParseResult { result: Some((p.0.clone(), p.1.clone())), pos: r.pos, best_error: r.best_error },
        None => ParseResult { result: None, pos: r.pos, best_error: r.best_error },
    }
}

/// One parsing session over one input.
///
/// It remembers the outcome of each rule at each position where the rule
/// has had one, so that a rule is not evaluated again where its outcome
/// is known. A session belongs to one grammar and one input.
pub struct ParserState {
    input: Vec<char>,
    /// By rule index, the outcomes by position.
    cache: Vec<HashMap<usize, ParseResult<PR>>>,
}

impl ParserState {
    /// The input of the session.
    pub closed spec fn text(&self) -> Seq<char> {
        self.input@
    }

    /// The outcome that the session remembers for the rule with index
    /// `rule` at `pos`, if it remembers one.
    pub closed spec fn cached(&self, rule: int, pos: int) -> Option<Parsed> {
        if 0 <= rule < self.cache@.len() && 0 <= pos <= usize::MAX && self.cache@[rule]@.contains_key(
            pos as usize,
        ) {
            Some(self.cache@[rule]@[pos as usize]@)
        } else {
            None
        }
    }

    /// Every remembered outcome is the outcome that the rule has at that
    /// position under `rules`.
    pub closed spec fn wf(&self, rules: &GrammarFile) -> bool {
        forall|r: int, p: usize|
            0 <= r < self.cache@.len() && #[trigger] self.cache@[r]@.contains_key(p) ==> r
                < rules.rules@.len() && exists|fuel: nat|
                eval(rules.rules@, self.input@, rules.rules@[r].body, p as int, fuel) == Some(
                    self.cache@[r]@[p]@,
                )
    }

    /// The same input, and everything that `before` remembers.
    pub open spec fn extends(&self, before: &ParserState) -> bool {
        &&& self.text() == before.text()
        &&& forall|r: int, p: int|
            before.cached(r, p) is Some ==> #[trigger] self.cached(r, p) == before.cached(r, p)
    }

    /// What `wf` says of one remembered outcome.
    pub proof fn lemma_cached(&self, rules: &GrammarFile, rule: int, pos: int)
        requires
            self.wf(rules),
            self.cached(rule, pos) is Some,
        ensures
            0 <= rule < rules.rules@.len(),
            exists|fuel: nat|
                eval(rules.rules@, self.text(), rules.rules@[rule].body, pos, fuel) == self.cached(rule, pos),
    {
        let p = pos as usize;
        assert(self.cache@[rule]@.contains_key(p));
        let fuel = choose|fuel: nat|
            eval(rules.rules@, self.input@, rules.rules@[rule].body, p as int, fuel) == Some(
                self.cache@[rule]@[p]@,
            );
        assert(eval(rules.rules@, self.text(), rules.rules@[rule].body, pos, fuel) == self.cached(rule, pos));
    }

    /// A session over `input` that remembers nothing yet.
    pub fn new(input: &str) -> (r: Self)
        ensures
            r.text() == input@,
            forall|rules: &GrammarFile| r.wf(rules),
            forall|rule: int, pos: int| r.cached(rule, pos) is None,
    {
        ParserState { input: to_chars(input), cache: Vec::new() }
    }

    /// The length of the input, in characters.
    pub fn input_len(&self) -> (n: usize)
        ensures
            n == self.text().len(),
    {
        self.input.len()
    }

    /// Matches one character of `cc` at `pos`: the character and the next
    /// position, or a failure at `pos` where the input has ended or holds
    /// another character.
    pub fn parse_charclass(&self, pos: usize, cc: &CharClass) -> (r: ParseResult<char>)
        ensures
            r@ == eval_charclass(self.text(), cc.ranges@, pos as int),
    {
        if pos < self.input.len() && cc.contains(self.input[pos]) {
            ParseResult::new_ok(self.input[pos], pos + 1)
        } else {
            ParseResult::new_err(pos)
        }
    }

    /// The outcome remembered for a rule at a position, if there is one.
    pub fn recall(&self, rule: usize, pos: usize) -> (r: Option<ParseResult<PR>>)
        ensures
            match r {
                Some(o) => self.cached(rule as int, pos as int) == Some(o@),
                None => self.cached(rule as int, pos as int) is None,
            },
    {
        if rule < self.cache.len() {
            match self.cache[rule].get(&pos) {
                Some(o) => Some(copy_parsed(o)),
                None => None,
            }
        } else {
            None
        }
    }

    /// Remembers `outcome` as the outcome of a rule at a position.
    pub(crate) fn remember(
        &mut self,
        rules: &GrammarFile,
        rule: usize,
        pos: usize,
        outcome: ParseResult<PR>,
        Ghost(fuel): Ghost<nat>,
    )
        requires
            old(self).wf(rules),
            rule < rules.rules@.len(),
            eval(rules.rules@, old(self).text(), rules.rules@[rule as int].body, pos as int, fuel) == Some(
                outcome@,
            ),
        ensures
            final(self).wf(rules),
            final(self).extends(old(self)),
            final(self).cached(rule as int, pos as int) == Some(outcome@),
    {
        while self.cache.len() <= rule
            invariant
                self.input == old(self).input,
                self.cache@.len() >= old(self).cache@.len(),
                forall|j: int| 0 <= j < old(self).cache@.len() ==> self.cache@[j] == old(self).cache@[j],
                forall|j: int|
                    old(self).cache@.len() <= j < self.cache@.len() ==> (#[trigger] self.cache@[j])@
                        == Map::<usize, ParseResult<PR>>::empty(),
                old(self).wf(rules),
            decreases rule + 1 - self.cache@.len(),
        {
            self.cache.push(HashMap::new());
        }
        let ghost mid = self.cache@;
        let ghost value = outcome@;
        self.cache[rule].insert(pos, outcome);
        proof {
            assert forall|r: int, p: usize|
                0 <= r < self.cache@.len() && #[trigger] self.cache@[r]@.contains_key(p) implies r
                < rules.rules@.len() && exists|f: nat|
                eval(rules.rules@, self.input@, rules.rules@[r].body, p as int, f) == Some(
                    self.cache@[r]@[p]@,
                ) by {
                if r == rule && p == pos {
                    assert(eval(rules.rules@, self.input@, rules.rules@[r].body, p as int, fuel) == Some(
                        self.cache@[r]@[p]@,
                    ));
                } else {
                    assert(mid[r]@.contains_key(p));
                    assert(r < old(self).cache@.len());
                    assert(old(self).cache@[r]@.contains_key(p));
                }
            }
            assert forall|r: int, p: int| old(self).cached(r, p) is Some implies #[trigger] self.cached(r, p)
                == old(self).cached(r, p) by {
                assert(mid[r] == old(self).cache@[r]);
                if r == rule && p == pos {
                    old(self).lemma_cached(rules, r, p);
                    let g = choose|g: nat|
                        eval(rules.rules@, old(self).text(), rules.rules@[r].body, p, g) == old(self).cached(
                            r,
                            p,
                        );
                    lemma_eval_unique(rules.rules@, old(self).text(), rules.rules@[r].body, p, fuel, g);
                }
            }
        }
    }
}

} // verus!
