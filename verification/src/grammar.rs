//! The vocabulary a grammar is written in: character classes, rule bodies,
//! actions, and the table of named rules.

use vstd::prelude::*;
use crate::text::str_eq;

verus! {

/// A set of inclusive character ranges.
#[derive(Debug)]
pub struct CharClass {
    pub ranges: Vec<(char, char)>,
}

/// Whether `c` lies in one of the inclusive ranges.
pub open spec fn in_ranges(ranges: Seq<(char, char)>, c: char) -> bool {
    exists|i: int| 0 <= i < ranges.len() && ranges[i].0 <= c && c <= (#[trigger] ranges[i]).1
}

impl CharClass {
    /// Whether `c` lies in one of the ranges of this class.
    pub open spec fn spec_contains(&self, c: char) -> bool {
        in_ranges(self.ranges@, c)
    }

    /// Tests one character against the class. Ranges are taken as declared:
    /// no case folding, and a range whose low end is above its high end
    /// holds nothing.
    pub fn contains(&self, c: char) -> (b: bool)
        ensures
            b == self.spec_contains(c),
    {
        let mut i: usize = 0;
        while i < self.ranges.len()
            invariant
                i <= self.ranges.len(),
                forall|j: int|
                    0 <= j < i ==> !(self.ranges@[j].0 <= c && c <= (#[trigger] self.ranges@[j]).1),
            decreases self.ranges.len() - i,
        {
            if self.ranges[i].0 <= c && c <= self.ranges[i].1 {
                return true;
            }
            i += 1;
        }
        false
    }
}

/// What a rule builds from the captures of its body.
#[derive(Debug)]
pub enum RuleAction {
    /// The value captured under a name.
    Name(String),
    /// A literal string.
    InputLiteral(String),
    /// A tagged node over the values of the argument actions.
    Construct(String, Vec<RuleAction>),
}

/// A grammar expression.
#[derive(Debug)]
pub enum RuleBody {
    /// Another rule, by name.
    Rule(String),
    /// Exactly one character of a class.
    CharClass(CharClass),
    /// A text, character by character.
    Literal(String),
    /// `expr` repeated, `delim` between occurrences; at least `min` and,
    /// where `max` is given, at most `max` occurrences.
    Repeat { expr: Box<RuleBody>, min: u64, max: Option<u64>, delim: Box<RuleBody> },
    /// The parts in order; their captures are merged.
    Sequence(Vec<RuleBody>),
    /// The alternatives in order; the first that matches wins.
    Choice(Vec<RuleBody>),
    /// The part, with its value captured under a name.
    NameBind(String, Box<RuleBody>),
    /// The part in a scope of its own, with an action evaluated over that
    /// scope's captures.
    Action(Box<RuleBody>, RuleAction),
    /// The part, for the span of input it matched.
    SliceInput(Box<RuleBody>),
}

/// A named rule with the tag of the type it produces.
#[derive(Debug)]
pub struct Rule {
    pub name: String,
    pub rtrn: String,
    pub body: RuleBody,
}

/// The rules of one grammar. Where a name is declared twice, the later
/// declaration is the one that counts.
#[derive(Debug)]
pub struct GrammarFile {
    pub rules: Vec<Rule>,
}

/// The index of the rule that `name` refers to: the last one declared
/// under that name among the first `n`.
pub open spec fn lookup_below(rules: Seq<Rule>, name: Seq<char>, n: int) -> Option<int>
    decreases n,
{
    if n <= 0 {
        None
    } else if rules[n - 1].name@ == name {
        Some(n - 1)
    } else {
        lookup_below(rules, name, n - 1)
    }
}

/// The index of the rule that `name` refers to, if it is declared.
pub open spec fn lookup(rules: Seq<Rule>, name: Seq<char>) -> Option<int> {
    lookup_below(rules, name, rules.len() as int)
}

impl GrammarFile {
    /// The index of the rule that `name` refers to, if it is declared.
    pub open spec fn spec_find(&self, name: Seq<char>) -> Option<int> {
        lookup(self.rules@, name)
    }

    /// Resolves a rule name to the index of its declaration.
    pub fn find(&self, name: &str) -> (r: Option<usize>)
        ensures
            r matches Some(i) ==> self.spec_find(name@) == Some(i as int) && i < self.rules.len(),
            r is None ==> self.spec_find(name@) is None,
    {
        let mut n: usize = self.rules.len();
        while n > 0
            invariant
                n <= self.rules.len(),
                lookup(self.rules@, name@) == lookup_below(self.rules@, name@, n as int),
            decreases n,
        {
            if str_eq(self.rules[n - 1].name.as_str(), name) {
                return Some(n - 1);
            }
            n -= 1;
        }
        None
    }
}

/// Whether `expr` refers to no rule.
pub open spec fn rule_free(expr: RuleBody) -> bool
    decreases expr, 0int,
{
    match expr {
        RuleBody::Rule(_) => false,
        RuleBody::CharClass(_) => true,
        RuleBody::Literal(_) => true,
        RuleBody::Repeat { expr: item, min, max, delim } => rule_free(*item) && rule_free(*delim),
        RuleBody::Sequence(subs) => rule_free_among(subs@, 0),
        RuleBody::Choice(subs) => rule_free_among(subs@, 0),
        RuleBody::NameBind(_, sub) => rule_free(*sub),
        RuleBody::Action(sub, _) => rule_free(*sub),
        RuleBody::SliceInput(sub) => rule_free(*sub),
    }
}

/// Whether the parts `subs` from index `i` on refer to no rule.
pub open spec fn rule_free_among(subs: Seq<RuleBody>, i: int) -> bool
    decreases subs, subs.len() - i,
{
    if 0 <= i < subs.len() {
        rule_free(subs[i]) && rule_free_among(subs, i + 1)
    } else {
        true
    }
}

/// What is wrong with a grammar.
#[derive(Debug, PartialEq, Eq)]
pub enum GrammarError {
    /// A rule body refers to a rule of this name, and none is declared.
    UndefinedRule(String),
    /// An action refers to a capture of this name, and the body that the
    /// action belongs to never captures under it.
    UnboundName(String),
}

/// The first rule name in `expr`, in reading order, that no rule is
/// declared under.
pub open spec fn unresolved_in(rules: Seq<Rule>, expr: RuleBody) -> Option<Seq<char>>
    decreases expr, 0int,
{
    match expr {
        RuleBody::Rule(name) => if lookup(rules, name@) is None {
            Some(name@)
        } else {
            None
        },
        RuleBody::CharClass(_) => None,
        RuleBody::Literal(_) => None,
        RuleBody::Repeat { expr: item, min, max, delim } => match unresolved_in(rules, *item) {
            Some(name) => Some(name),
            None => unresolved_in(rules, *delim),
        },
        RuleBody::Sequence(subs) => unresolved_among(rules, subs@, 0),
        RuleBody::Choice(subs) => unresolved_among(rules, subs@, 0),
        RuleBody::NameBind(_, sub) => unresolved_in(rules, *sub),
        RuleBody::Action(sub, _) => unresolved_in(rules, *sub),
        RuleBody::SliceInput(sub) => unresolved_in(rules, *sub),
    }
}

/// The first rule name in `subs` from index `i` on, in reading order,
/// that no rule is declared under.
pub open spec fn unresolved_among(rules: Seq<Rule>, subs: Seq<RuleBody>, i: int) -> Option<Seq<char>>
    decreases subs, subs.len() - i,
{
    if 0 <= i < subs.len() {
        match unresolved_in(rules, subs[i]) {
            Some(name) => Some(name),
            None => unresolved_among(rules, subs, i + 1),
        }
    } else {
        None
    }
}

/// The first rule name in the bodies of `rules` from index `i` on, in
/// reading order, that no rule is declared under.
pub open spec fn unresolved_from(rules: Seq<Rule>, i: int) -> Option<Seq<char>>
    decreases rules.len() - i,
{
    if 0 <= i < rules.len() {
        match unresolved_in(rules, rules[i].body) {
            Some(name) => Some(name),
            None => unresolved_from(rules, i + 1),
        }
    } else {
        None
    }
}

/// Whether a name that was found is the name that was looked for.
pub open spec fn is_name(found: Option<String>, name: Option<Seq<char>>) -> bool {
    match (found, name) {
        (Some(f), Some(n)) => f@ == n,
        (None, None) => true,
        _ => false,
    }
}

impl GrammarFile {
    /// Whether every rule that a body refers to is declared.
    pub open spec fn closed(&self) -> bool {
        unresolved_from(self.rules@, 0) is None
    }

    /// The first rule name in `expr`, in reading order, that no rule of
    /// this grammar is declared under.
    pub fn unresolved(&self, expr: &RuleBody) -> (r: Option<String>)
        ensures
            is_name(r, unresolved_in(self.rules@, *expr)),
        decreases expr,
    {
        match expr {
            RuleBody::Rule(name) => {
                if self.find(name.as_str()).is_none() {
                    Some(name.clone())
                } else {
                    None
                }
            },
            RuleBody::CharClass(_) => None,
            RuleBody::Literal(_) => None,
            RuleBody::Repeat { expr: item, min, max, delim } => {
                match self.unresolved(item) {
                    Some(name) => Some(name),
                    None => self.unresolved(delim),
                }
            },
            RuleBody::Sequence(subs) => self.unresolved_list(expr, subs),
            RuleBody::Choice(subs) => self.unresolved_list(expr, subs),
            RuleBody::NameBind(_, sub) => self.unresolved(sub),
            RuleBody::Action(sub, _) => self.unresolved(sub),
            RuleBody::SliceInput(sub) => self.unresolved(sub),
        }
    }

    /// `unresolved`, for the parts `subs` of `parent`.
    fn unresolved_list(&self, parent: &RuleBody, subs: &Vec<RuleBody>) -> (r: Option<String>)
        requires
            (parent matches RuleBody::Sequence(s) && s == subs) || (parent matches RuleBody::Choice(s) && s
                == subs),
        ensures
            is_name(r, unresolved_among(self.rules@, subs@, 0)),
        decreases parent, 0int,
    {
        let mut i: usize = 0;
        while i < subs.len()
            invariant
                (parent matches RuleBody::Sequence(s) && s == subs) || (parent matches RuleBody::Choice(s) && s
                    == subs),
                i <= subs.len(),
                unresolved_among(self.rules@, subs@, i as int) == unresolved_among(self.rules@, subs@, 0),
            decreases subs.len() - i,
        {
            match self.unresolved(&subs[i]) {
                Some(name) => {
                    return Some(name);
                },
                None => {},
            }
            i += 1;
        }
        None
    }

    /// Checks that every rule that a body refers to is declared. The
    /// error names the first reference, in reading order, that is not.
    pub fn validate(&self) -> (r: Result<(), GrammarError>)
        ensures
            r is Ok <==> self.closed(),
            r matches Err(e) ==> e matches GrammarError::UndefinedRule(name) && unresolved_from(self.rules@, 0)
                == Some(name@),
    {
        let mut i: usize = 0;
        while i < self.rules.len()
            invariant
                i <= self.rules.len(),
                unresolved_from(self.rules@, i as int) == unresolved_from(self.rules@, 0),
            decreases self.rules.len() - i,
        {
            match self.unresolved(&self.rules[i].body) {
                Some(name) => {
                    return Err(GrammarError::UndefinedRule(name));
                },
                None => {},
            }
            i += 1;
        }
        Ok(())
    }
}

/// The names under which a match of `expr` captures: those of the
/// captures in it that reach its scope. Captures reach through sequences
/// and through other captures, and through nothing else.
pub open spec fn captured_names(expr: RuleBody) -> Set<Seq<char>>
    decreases expr, 0int,
{
    match expr {
        RuleBody::NameBind(name, sub) => captured_names(*sub).insert(name@),
        RuleBody::Sequence(subs) => captured_among(subs@, subs@.len() as int),
        _ => Set::empty(),
    }
}

/// The names under which the first `n` of `subs` capture.
pub open spec fn captured_among(subs: Seq<RuleBody>, n: int) -> Set<Seq<char>>
    decreases subs, n,
{
    if 0 < n <= subs.len() {
        captured_among(subs, n - 1).union(captured_names(subs[n - 1]))
    } else {
        Set::empty()
    }
}

/// The names that a list of strings holds.
pub open spec fn name_set(names: Seq<String>) -> Set<Seq<char>> {
    Set::new(|n: Seq<char>| exists|i: int| 0 <= i < names.len() && (#[trigger] names[i])@ == n)
}

/// The first name in `action`, in reading order, that is not among
/// `names`.
pub open spec fn unbound_in(action: RuleAction, names: Set<Seq<char>>) -> Option<Seq<char>>
    decreases action, 0int,
{
    match action {
        RuleAction::Name(name) => if names.contains(name@) {
            None
        } else {
            Some(name@)
        },
        RuleAction::InputLiteral(_) => None,
        RuleAction::Construct(_, args) => unbound_among(args@, names, 0),
    }
}

/// The first name in `args` from index `i` on, in reading order, that is
/// not among `names`.
pub open spec fn unbound_among(args: Seq<RuleAction>, names: Set<Seq<char>>, i: int) -> Option<Seq<char>>
    decreases args, args.len() - i,
{
    if 0 <= i < args.len() {
        match unbound_in(args[i], names) {
            Some(name) => Some(name),
            None => unbound_among(args, names, i + 1),
        }
    } else {
        None
    }
}

/// The first name, in reading order, that an action in `expr` refers to
/// and the body of that action does not capture under. An action stands
/// after its body.
pub open spec fn unbound_action_in(expr: RuleBody) -> Option<Seq<char>>
    decreases expr, 0int,
{
    match expr {
        RuleBody::Rule(_) => None,
        RuleBody::CharClass(_) => None,
        RuleBody::Literal(_) => None,
        RuleBody::Repeat { expr: item, min, max, delim } => match unbound_action_in(*item) {
            Some(name) => Some(name),
            None => unbound_action_in(*delim),
        },
        RuleBody::Sequence(subs) => unbound_action_among(subs@, 0),
        RuleBody::Choice(subs) => unbound_action_among(subs@, 0),
        RuleBody::NameBind(_, sub) => unbound_action_in(*sub),
        RuleBody::Action(sub, action) => match unbound_action_in(*sub) {
            Some(name) => Some(name),
            None => unbound_in(action, captured_names(*sub)),
        },
        RuleBody::SliceInput(sub) => unbound_action_in(*sub),
    }
}

/// `unbound_action_in`, for the parts `subs` from index `i` on.
pub open spec fn unbound_action_among(subs: Seq<RuleBody>, i: int) -> Option<Seq<char>>
    decreases subs, subs.len() - i,
{
    if 0 <= i < subs.len() {
        match unbound_action_in(subs[i]) {
            Some(name) => Some(name),
            None => unbound_action_among(subs, i + 1),
        }
    } else {
        None
    }
}

/// `unbound_action_in`, for the bodies of `rules` from index `i` on.
pub open spec fn unbound_action_from(rules: Seq<Rule>, i: int) -> Option<Seq<char>>
    decreases rules.len() - i,
{
    if 0 <= i < rules.len() {
        match unbound_action_in(rules[i].body) {
            Some(name) => Some(name),
            None => unbound_action_from(rules, i + 1),
        }
    } else {
        None
    }
}

/// Whether `name` is among `names`.
pub fn has_name(names: &Vec<String>, name: &str) -> (b: bool)
    ensures
        b == name_set(names@).contains(name@),
{
    let mut i: usize = 0;
    while i < names.len()
        invariant
            i <= names.len(),
            forall|j: int| 0 <= j < i ==> (#[trigger] names@[j])@ != name@,
        decreases names.len() - i,
    {
        if str_eq(names[i].as_str(), name) {
            return true;
        }
        i += 1;
    }
    false
}

impl RuleBody {
    /// The names under which a match of this expression captures.
    pub fn captures(&self) -> (names: Vec<String>)
        ensures
            name_set(names@) == captured_names(*self),
        decreases self,
    {
        match self {
            RuleBody::NameBind(name, sub) => {
                let mut names = sub.captures();
                let ghost before = names@;
                names.push(name.clone());
                proof {
                    assert forall|n: Seq<char>| name_set(names@).contains(n) == name_set(before).insert(
                        name@,
                    ).contains(n) by {
                        if name_set(before).contains(n) {
                            let i = choose|i: int| 0 <= i < before.len() && (#[trigger] before[i])@ == n;
                            assert(names@[i]@ == n);
                        }
                        if n == name@ {
                            assert(names@[before.len() as int]@ == n);
                        }
                    }
                    assert(name_set(names@) =~= name_set(before).insert(name@));
                }
                names
            },
            RuleBody::Sequence(subs) => {
                let mut names: Vec<String> = Vec::new();
                let mut i: usize = 0;
                proof {
                    assert(name_set(names@) =~= Set::<Seq<char>>::empty());
                }
                while i < subs.len()
                    invariant
                        self matches RuleBody::Sequence(s) && s == subs,
                        i <= subs.len(),
                        name_set(names@) == captured_among(subs@, i as int),
                    decreases subs.len() - i,
                {
                    let mut more = subs[i].captures();
                    let ghost before = names@;
                    let ghost added = more@;
                    names.append(&mut more);
                    proof {
                        assert forall|n: Seq<char>| name_set(names@).contains(n) == name_set(before).union(
                            name_set(added),
                        ).contains(n) by {
                            if name_set(before).contains(n) {
                                let k = choose|k: int| 0 <= k < before.len() && (#[trigger] before[k])@ == n;
                                assert(names@[k]@ == n);
                            }
                            if name_set(added).contains(n) {
                                let k = choose|k: int| 0 <= k < added.len() && (#[trigger] added[k])@ == n;
                                assert(names@[before.len() + k]@ == n);
                            }
                            if name_set(names@).contains(n) {
                                let k = choose|k: int| 0 <= k < names@.len() && (#[trigger] names@[k])@ == n;
                                if k < before.len() {
                                    assert(before[k]@ == n);
                                } else {
                                    assert(added[k - before.len()]@ == n);
                                }
                            }
                        }
                        assert(name_set(names@) =~= name_set(before).union(name_set(added)));
                    }
                    i += 1;
                }
                names
            },
            _ => {
                let names: Vec<String> = Vec::new();
                proof {
                    assert(name_set(names@) =~= Set::<Seq<char>>::empty());
                }
                names
            },
        }
    }

    /// The first name, in reading order, that an action in this
    /// expression refers to and its body does not capture under.
    pub fn unbound_action(&self) -> (r: Option<String>)
        ensures
            is_name(r, unbound_action_in(*self)),
        decreases self, 1int,
    {
        match self {
            RuleBody::Rule(_) => None,
            RuleBody::CharClass(_) => None,
            RuleBody::Literal(_) => None,
            RuleBody::Repeat { expr: item, min, max, delim } => {
                match item.unbound_action() {
                    Some(name) => Some(name),
                    None => delim.unbound_action(),
                }
            },
            RuleBody::Sequence(subs) => self.unbound_action_list(subs),
            RuleBody::Choice(subs) => self.unbound_action_list(subs),
            RuleBody::NameBind(_, sub) => sub.unbound_action(),
            RuleBody::Action(sub, action) => {
                match sub.unbound_action() {
                    Some(name) => Some(name),
                    None => {
                        let names = sub.captures();
                        action.unbound(&names)
                    },
                }
            },
            RuleBody::SliceInput(sub) => sub.unbound_action(),
        }
    }

    /// `unbound_action`, for the parts `subs` of this expression.
    fn unbound_action_list(&self, subs: &Vec<RuleBody>) -> (r: Option<String>)
        requires
            (self matches RuleBody::Sequence(s) && s == subs) || (self matches RuleBody::Choice(s) && s == subs),
        ensures
            is_name(r, unbound_action_among(subs@, 0)),
        decreases self, 0int,
    {
        let mut i: usize = 0;
        while i < subs.len()
            invariant
                (self matches RuleBody::Sequence(s) && s == subs) || (self matches RuleBody::Choice(s) && s
                    == subs),
                i <= subs.len(),
                unbound_action_among(subs@, i as int) == unbound_action_among(subs@, 0),
            decreases subs.len() - i,
        {
            match subs[i].unbound_action() {
                Some(name) => {
                    return Some(name);
                },
                None => {},
            }
            i += 1;
        }
        None
    }
}

impl RuleAction {
    /// The first name in this action, in reading order, that is not
    /// among `names`.
    pub fn unbound(&self, names: &Vec<String>) -> (r: Option<String>)
        ensures
            is_name(r, unbound_in(*self, name_set(names@))),
        decreases self,
    {
        match self {
            RuleAction::Name(name) => {
                if has_name(names, name.as_str()) {
                    None
                } else {
                    Some(name.clone())
                }
            },
            RuleAction::InputLiteral(_) => None,
            RuleAction::Construct(_, args) => {
                let mut i: usize = 0;
                while i < args.len()
                    invariant
                        self matches RuleAction::Construct(_, a) && a == args,
                        i <= args.len(),
                        unbound_among(args@, name_set(names@), i as int) == unbound_among(
                            args@,
                            name_set(names@),
                            0,
                        ),
                    decreases args.len() - i,
                {
                    match args[i].unbound(names) {
                        Some(name) => {
                            return Some(name);
                        },
                        None => {},
                    }
                    i += 1;
                }
                None
            },
        }
    }
}

impl GrammarFile {
    /// Whether every name that an action refers to is captured by the
    /// body of that action.
    pub open spec fn actions_bound(&self) -> bool {
        unbound_action_from(self.rules@, 0) is None
    }

    /// Checks that every name that an action refers to is captured by the
    /// body of that action, so that no action yields the error value for
    /// a name. The error names the first reference, in reading order,
    /// that is not.
    pub fn validate_actions(&self) -> (r: Result<(), GrammarError>)
        ensures
            r is Ok <==> self.actions_bound(),
            r matches Err(e) ==> e matches GrammarError::UnboundName(name) && unbound_action_from(
                self.rules@,
                0,
            ) == Some(name@),
    {
        let mut i: usize = 0;
        while i < self.rules.len()
            invariant
                i <= self.rules.len(),
                unbound_action_from(self.rules@, i as int) == unbound_action_from(self.rules@, 0),
            decreases self.rules.len() - i,
        {
            match self.rules[i].body.unbound_action() {
                Some(name) => {
                    return Err(GrammarError::UnboundName(name));
                },
                None => {},
            }
            i += 1;
        }
        Ok(())
    }
}

} // verus!
