use jonla::action_result::ActionResult;
use jonla::bindings::Bindings;
use jonla::grammar::{has_name, CharClass, GrammarError, GrammarFile, Rule, RuleAction, RuleBody};
use jonla::parser_core::{copy_parsed, ParserState, PR};
use jonla::parser_result::{deeper_pos, ParseResult};
use jonla::parser_rule::apply_action;

fn lit(text: &str) -> RuleBody {
    RuleBody::Literal(text.to_string())
}

fn class(ranges: &[(char, char)]) -> RuleBody {
    RuleBody::CharClass(CharClass { ranges: ranges.to_vec() })
}

fn nothing() -> RuleBody {
    RuleBody::Sequence(vec![])
}

fn repeat(expr: RuleBody, min: u64, max: Option<u64>, delim: RuleBody) -> RuleBody {
    RuleBody::Repeat { expr: Box::new(expr), min, max, delim: Box::new(delim) }
}

fn bind(name: &str, expr: RuleBody) -> RuleBody {
    RuleBody::NameBind(name.to_string(), Box::new(expr))
}

fn rule(name: &str, body: RuleBody) -> Rule {
    Rule { name: name.to_string(), rtrn: "Input".to_string(), body }
}

fn no_rules() -> GrammarFile {
    GrammarFile { rules: vec![] }
}

fn run(input: &str, pos: usize, expr: &RuleBody) -> ParseResult<PR> {
    let mut state = ParserState::new(input);
    state.parse_expr(pos, &no_rules(), expr)
}

fn value_of(res: &ParseResult<PR>) -> &ActionResult {
    &res.result.as_ref().unwrap().1
}

fn same(a: &ParseResult<PR>, b: &ParseResult<PR>, names: &[&str]) -> bool {
    if a.pos != b.pos || a.best_error != b.best_error || a.is_ok() != b.is_ok() {
        return false;
    }
    match (&a.result, &b.result) {
        (Some(x), Some(y)) => x.1 == y.1 && names.iter().all(|n| x.0.get(n) == y.0.get(n)),
        _ => true,
    }
}

#[test]
fn charclass_contains_is_inclusive_at_both_ends() {
    let cc = CharClass { ranges: vec![('w', 'z'), ('8', '8'), ('p', 'q')] };
    for c in ['w', 'x', 'y', 'z', '8', 'p', 'q'] {
        assert!(cc.contains(c), "{:?}", c);
    }
    for c in ['a', 'b', 'v', '7', '9', 'o', 'r', ' ', 'W', '{'] {
        assert!(!cc.contains(c), "{:?}", c);
    }
}

#[test]
fn charclass_without_ranges_or_with_a_reversed_range_holds_nothing() {
    assert!(!CharClass { ranges: vec![] }.contains('a'));
    assert!(!CharClass { ranges: vec![('z', 'a')] }.contains('m'));
}

#[test]
fn new_ok_and_new_err() {
    let ok: ParseResult<u8> = ParseResult::new_ok(7, 3);
    assert!(ok.is_ok());
    assert_eq!(ok.result, Some(7));
    assert_eq!(ok.pos, 3);
    assert_eq!(ok.best_error, None);
    let err: ParseResult<u8> = ParseResult::new_err(5);
    assert!(!err.is_ok());
    assert_eq!(err.result, None);
    assert_eq!(err.pos, 5);
    assert_eq!(err.best_error, Some(5));
}

#[test]
fn map_changes_only_the_value_of_a_success() {
    let ok = ParseResult { result: Some(20u32), pos: 4, best_error: Some(9) };
    let mapped = ok.map(|v| v + 1);
    assert_eq!(mapped.result, Some(21));
    assert_eq!(mapped.pos, 4);
    assert_eq!(mapped.best_error, Some(9));
    let err: ParseResult<u32> = ParseResult::new_err(2);
    let mapped = err.map(|v| v + 1);
    assert_eq!(mapped.result, None);
    assert_eq!(mapped.pos, 2);
    assert_eq!(mapped.best_error, Some(2));
}

#[test]
fn deeper_pos_keeps_the_larger() {
    assert_eq!(deeper_pos(None, None), None);
    assert_eq!(deeper_pos(Some(3), None), Some(3));
    assert_eq!(deeper_pos(None, Some(4)), Some(4));
    assert_eq!(deeper_pos(Some(3), Some(4)), Some(4));
    assert_eq!(deeper_pos(Some(5), Some(4)), Some(5));
}

#[test]
fn sequencing_pairs_values_and_keeps_the_deeper_failure() {
    let first = ParseResult { result: Some('a'), pos: 1, best_error: Some(6) };
    let step = ParseResult { result: Some('b'), pos: 2, best_error: Some(4) };
    let both = first.followed_by(step);
    assert_eq!(both.result, Some(('a', 'b')));
    assert_eq!(both.pos, 2);
    assert_eq!(both.best_error, Some(6));
}

#[test]
fn sequencing_with_a_failed_step_fails_at_the_step() {
    let first = ParseResult { result: Some('a'), pos: 1, best_error: None };
    let step: ParseResult<char> = ParseResult::new_err(3);
    let both = first.followed_by(step);
    assert_eq!(both.result, None);
    assert_eq!(both.pos, 3);
    assert_eq!(both.best_error, Some(3));
}

#[test]
fn choice_keeps_a_success() {
    let best: ParseResult<char> = ParseResult::new_err(7);
    let candidate = ParseResult { result: Some('x'), pos: 2, best_error: None };
    let kept = best.or(candidate);
    assert_eq!(kept.result, Some('x'));
    assert_eq!(kept.pos, 2);
    assert_eq!(kept.best_error, Some(7));
}

#[test]
fn choice_keeps_the_deeper_failure_and_the_earlier_on_a_tie() {
    let best: ParseResult<char> = ParseResult::new_err(3);
    let kept = best.or(ParseResult::new_err(5));
    assert_eq!((kept.result, kept.pos, kept.best_error), (None, 5, Some(5)));
    let best: ParseResult<char> = ParseResult { result: None, pos: 5, best_error: Some(8) };
    let kept = best.or(ParseResult { result: None, pos: 5, best_error: Some(6) });
    assert_eq!((kept.result, kept.pos, kept.best_error), (None, 5, Some(8)));
    let best: ParseResult<char> = ParseResult::new_err(5);
    let kept = best.or(ParseResult::new_err(2));
    assert_eq!((kept.result, kept.pos, kept.best_error), (None, 5, Some(5)));
}

#[test]
fn noting_and_replace() {
    let ok = ParseResult { result: Some(1u8), pos: 2, best_error: Some(3) };
    let noted = ok.noting(Some(9));
    assert_eq!((noted.result, noted.pos, noted.best_error), (Some(1), 2, Some(9)));
    let replaced = noted.replace("v");
    assert_eq!((replaced.result, replaced.pos, replaced.best_error), (Some("v"), 2, Some(9)));
    let err: ParseResult<u8> = ParseResult::new_err(4);
    let replaced = err.replace("v");
    assert_eq!((replaced.result, replaced.pos, replaced.best_error), (None, 4, Some(4)));
}

#[test]
fn bindings_insert_get_and_overwrite() {
    let mut b = Bindings::new();
    assert!(b.get("a").is_none());
    b.insert("a".to_string(), ActionResult::Value((0, 1)));
    b.insert("b".to_string(), ActionResult::Error);
    assert_eq!(b.get("a"), Some(&ActionResult::Value((0, 1))));
    assert_eq!(b.get("b"), Some(&ActionResult::Error));
    b.insert("a".to_string(), ActionResult::Value((4, 5)));
    assert_eq!(b.get("a"), Some(&ActionResult::Value((4, 5))));
    assert!(b.get("c").is_none());
}

#[test]
fn bindings_merge_prefers_the_later_scope() {
    let mut left = Bindings::new();
    left.insert("a".to_string(), ActionResult::Value((0, 1)));
    left.insert("b".to_string(), ActionResult::Value((1, 2)));
    let mut right = Bindings::new();
    right.insert("b".to_string(), ActionResult::Value((7, 8)));
    right.insert("c".to_string(), ActionResult::Value((8, 9)));
    left.merge(right);
    assert_eq!(left.get("a"), Some(&ActionResult::Value((0, 1))));
    assert_eq!(left.get("b"), Some(&ActionResult::Value((7, 8))));
    assert_eq!(left.get("c"), Some(&ActionResult::Value((8, 9))));
}

#[test]
fn bindings_clone_is_independent() {
    let mut b = Bindings::new();
    b.insert("a".to_string(), ActionResult::Literal("x".to_string()));
    let mut c = b.clone();
    c.insert("a".to_string(), ActionResult::Error);
    assert_eq!(b.get("a"), Some(&ActionResult::Literal("x".to_string())));
    assert_eq!(c.get("a"), Some(&ActionResult::Error));
}

#[test]
fn action_result_clone_is_deep() {
    let tree = ActionResult::Construct(
        "Pair".to_string(),
        vec![ActionResult::Value((1, 2)), ActionResult::Construct("In".to_string(), vec![ActionResult::Error])],
    );
    assert_eq!(tree.clone(), tree);
}

#[test]
fn apply_action_name_literal_and_construct() {
    let mut b = Bindings::new();
    b.insert("x".to_string(), ActionResult::Value((2, 5)));
    b.insert("y".to_string(), ActionResult::Value((5, 6)));
    assert_eq!(apply_action(&RuleAction::Name("x".to_string()), &b), ActionResult::Value((2, 5)));
    assert_eq!(apply_action(&RuleAction::Name("missing".to_string()), &b), ActionResult::Error);
    assert_eq!(
        apply_action(&RuleAction::InputLiteral("hi".to_string()), &b),
        ActionResult::Literal("hi".to_string())
    );
    let construct = RuleAction::Construct(
        "Node".to_string(),
        vec![
            RuleAction::Name("y".to_string()),
            RuleAction::InputLiteral("+".to_string()),
            RuleAction::Name("x".to_string()),
            RuleAction::Construct("Empty".to_string(), vec![]),
            RuleAction::Name("z".to_string()),
        ],
    );
    assert_eq!(
        apply_action(&construct, &b),
        ActionResult::Construct(
            "Node".to_string(),
            vec![
                ActionResult::Value((5, 6)),
                ActionResult::Literal("+".to_string()),
                ActionResult::Value((2, 5)),
                ActionResult::Construct("Empty".to_string(), vec![]),
                ActionResult::Error,
            ]
        )
    );
}

#[test]
fn parse_charclass_matches_one_character() {
    let state = ParserState::new("ab");
    let cc = CharClass { ranges: vec![('a', 'a')] };
    let hit = state.parse_charclass(0, &cc);
    assert_eq!((hit.result, hit.pos, hit.best_error), (Some('a'), 1, None));
    let miss = state.parse_charclass(1, &cc);
    assert_eq!((miss.result, miss.pos, miss.best_error), (None, 1, Some(1)));
    let end = state.parse_charclass(2, &cc);
    assert_eq!((end.result, end.pos, end.best_error), (None, 2, Some(2)));
    let beyond = state.parse_charclass(9, &cc);
    assert_eq!((beyond.result, beyond.pos, beyond.best_error), (None, 9, Some(9)));
}

#[test]
fn input_positions_count_characters() {
    let state = ParserState::new("é→x");
    assert_eq!(state.input_len(), 3);
    let res = run("é→x", 2, &lit("x"));
    assert_eq!(value_of(&res), &ActionResult::Value((2, 3)));
}

#[test]
fn charclass_expression_yields_the_span_of_one_character() {
    let res = run("xyz", 1, &class(&[('x', 'z')]));
    assert_eq!(res.pos, 2);
    assert_eq!(res.best_error, None);
    assert_eq!(value_of(&res), &ActionResult::Value((1, 2)));
    assert!(res.result.unwrap().0.get("x").is_none());
}

#[test]
fn literal_yields_the_span_of_the_whole_text() {
    let res = run("say lol", 4, &lit("lol"));
    assert_eq!(res.pos, 7);
    assert_eq!(res.best_error, None);
    assert_eq!(value_of(&res), &ActionResult::Value((4, 7)));
}

#[test]
fn literal_fails_at_the_first_character_that_differs() {
    let res = run("lox", 0, &lit("lol"));
    assert!(!res.is_ok());
    assert_eq!(res.pos, 2);
    assert_eq!(res.best_error, Some(2));
    let res = run("lo", 0, &lit("lol"));
    assert_eq!((res.is_ok(), res.pos, res.best_error), (false, 2, Some(2)));
    let res = run("abc", 0, &lit("lol"));
    assert_eq!((res.is_ok(), res.pos, res.best_error), (false, 0, Some(0)));
}

#[test]
fn empty_literal_matches_without_advancing() {
    let res = run("abc", 1, &lit(""));
    assert!(res.is_ok());
    assert_eq!(res.pos, 1);
    assert_eq!(value_of(&res), &ActionResult::Value((1, 1)));
    let res = run("", 0, &lit(""));
    assert!(res.is_ok());
    assert_eq!(res.pos, 0);
}

#[test]
fn sequence_merges_captures_and_later_ones_win() {
    let expr = RuleBody::Sequence(vec![
        bind("a", lit("x")),
        bind("b", lit("y")),
        bind("a", lit("z")),
    ]);
    let res = run("xyz", 0, &expr);
    assert_eq!(res.pos, 3);
    let (captures, value) = res.result.unwrap();
    assert_eq!(value, ActionResult::Error);
    assert_eq!(captures.get("a"), Some(&ActionResult::Value((2, 3))));
    assert_eq!(captures.get("b"), Some(&ActionResult::Value((1, 2))));
}

#[test]
fn empty_sequence_matches_without_advancing() {
    let res = run("abc", 2, &nothing());
    assert_eq!((res.is_ok(), res.pos, res.best_error), (true, 2, None));
}

#[test]
fn sequence_fails_where_a_part_fails() {
    let expr = RuleBody::Sequence(vec![lit("ab"), lit("cd"), lit("ef")]);
    let res = run("abcxef", 0, &expr);
    assert_eq!((res.is_ok(), res.pos, res.best_error), (false, 3, Some(3)));
}

#[test]
fn choice_takes_the_first_alternative_that_matches() {
    let expr = RuleBody::Choice(vec![bind("n", lit("a")), lit("ab"), lit("abc")]);
    let res = run("abc", 0, &expr);
    assert_eq!(res.pos, 1);
    let (captures, value) = res.result.unwrap();
    assert_eq!(value, ActionResult::Value((0, 1)));
    assert!(captures.get("n").is_none());
}

#[test]
fn choice_records_the_failures_of_the_alternatives_it_gave_up() {
    let expr = RuleBody::Choice(vec![lit("abx"), lit("a")]);
    let res = run("abc", 0, &expr);
    assert_eq!((res.is_ok(), res.pos, res.best_error), (true, 1, Some(2)));
}

#[test]
fn choice_that_fails_reports_the_deepest_alternative() {
    let expr = RuleBody::Choice(vec![lit("ax"), lit("abcx"), lit("abx"), lit("q")]);
    let res = run("abcd", 0, &expr);
    assert_eq!((res.is_ok(), res.pos, res.best_error), (false, 3, Some(3)));
}

#[test]
fn choice_without_alternatives_fails_at_the_start() {
    let res = run("abc", 1, &RuleBody::Choice(vec![]));
    assert_eq!((res.is_ok(), res.pos, res.best_error), (false, 1, Some(1)));
}

#[test]
fn namebind_records_the_value_and_keeps_it() {
    let res = run("q", 0, &bind("d", lit("q")));
    let (captures, value) = res.result.unwrap();
    assert_eq!(value, ActionResult::Value((0, 1)));
    assert_eq!(captures.get("d"), Some(&ActionResult::Value((0, 1))));
}

#[test]
fn action_is_a_scope_boundary() {
    let expr = RuleBody::Action(
        Box::new(RuleBody::Sequence(vec![bind("l", lit("a")), bind("r", lit("b"))])),
        RuleAction::Construct(
            "Pair".to_string(),
            vec![RuleAction::Name("r".to_string()), RuleAction::Name("l".to_string())],
        ),
    );
    let res = run("ab", 0, &expr);
    assert_eq!(res.pos, 2);
    let (captures, value) = res.result.unwrap();
    assert_eq!(
        value,
        ActionResult::Construct(
            "Pair".to_string(),
            vec![ActionResult::Value((1, 2)), ActionResult::Value((0, 1))]
        )
    );
    assert!(captures.get("l").is_none());
    assert!(captures.get("r").is_none());
}

#[test]
fn action_with_an_unbound_name_yields_the_error_value() {
    let expr = RuleBody::Action(Box::new(lit("a")), RuleAction::Name("nobody".to_string()));
    let res = run("a", 0, &expr);
    assert!(res.is_ok());
    assert_eq!(value_of(&res), &ActionResult::Error);
}

#[test]
fn slice_yields_the_span_and_drops_captures() {
    let expr = RuleBody::SliceInput(Box::new(RuleBody::Sequence(vec![bind("a", lit("x")), lit("yz")])));
    let res = run("wxyz", 1, &expr);
    assert_eq!(res.pos, 4);
    let (captures, value) = res.result.unwrap();
    assert_eq!(value, ActionResult::Value((1, 4)));
    assert!(captures.get("a").is_none());
}

#[test]
fn repeat_stops_at_the_first_failure_once_min_is_reached() {
    let expr = repeat(class(&[('a', 'c')]), 2, None, nothing());
    let res = run("abcd", 0, &expr);
    assert_eq!((res.is_ok(), res.pos, res.best_error), (true, 3, Some(3)));
    assert_eq!(value_of(&res), &ActionResult::Error);
}

#[test]
fn repeat_fails_below_min() {
    let expr = repeat(class(&[('a', 'c')]), 3, None, nothing());
    let res = run("abxd", 0, &expr);
    assert_eq!((res.is_ok(), res.pos, res.best_error), (false, 2, Some(2)));
    let res = run("", 0, &repeat(lit("a"), 1, None, nothing()));
    assert_eq!((res.is_ok(), res.pos, res.best_error), (false, 0, Some(0)));
}

#[test]
fn repeat_stops_at_max() {
    let expr = repeat(lit("a"), 0, Some(2), nothing());
    let res = run("aaaa", 0, &expr);
    assert_eq!((res.is_ok(), res.pos, res.best_error), (true, 2, None));
    let res = run("aaaa", 0, &repeat(lit("a"), 0, Some(0), nothing()));
    assert_eq!((res.is_ok(), res.pos, res.best_error), (true, 0, None));
}

#[test]
fn repeat_wants_the_delimiter_between_occurrences() {
    let expr = repeat(class(&[('0', '9')]), 1, None, lit(","));
    let res = run("1,2,3", 0, &expr);
    assert_eq!((res.is_ok(), res.pos), (true, 5));
    let res = run("1,2,", 0, &expr);
    assert_eq!((res.is_ok(), res.pos, res.best_error), (true, 3, Some(4)));
    let res = run("12", 0, &expr);
    assert_eq!((res.is_ok(), res.pos, res.best_error), (true, 1, Some(1)));
    let res = run(",1", 0, &expr);
    assert_eq!((res.is_ok(), res.pos, res.best_error), (false, 0, Some(0)));
}

#[test]
fn repeat_below_min_fails_where_the_delimiter_fails() {
    let expr = repeat(class(&[('0', '9')]), 3, None, lit(","));
    let res = run("1,2;3", 0, &expr);
    assert_eq!((res.is_ok(), res.pos, res.best_error), (false, 3, Some(3)));
}

#[test]
fn repeat_drops_the_captures_of_its_occurrences() {
    let expr = repeat(bind("d", class(&[('0', '9')])), 0, None, nothing());
    let res = run("12", 0, &expr);
    assert_eq!(res.pos, 2);
    assert!(res.result.unwrap().0.get("d").is_none());
}

#[test]
fn repeat_of_an_occurrence_that_consumes_nothing_ends() {
    let res = run("abc", 1, &repeat(nothing(), 0, None, nothing()));
    assert_eq!((res.is_ok(), res.pos, res.best_error), (true, 1, None));
    let res = run("abc", 1, &repeat(lit(""), 5, None, lit("")));
    assert_eq!((res.is_ok(), res.pos), (true, 1));
    let inner = repeat(lit("a"), 0, None, nothing());
    let res = run("aab", 0, &repeat(inner, 0, None, nothing()));
    assert_eq!((res.is_ok(), res.pos, res.best_error), (true, 2, Some(2)));
}

fn digits_grammar() -> GrammarFile {
    GrammarFile {
        rules: vec![
            rule("start", RuleBody::Sequence(vec![RuleBody::Rule("list".to_string())])),
            rule(
                "list",
                RuleBody::Choice(vec![
                    RuleBody::Sequence(vec![
                        lit("("),
                        repeat(RuleBody::Rule("list".to_string()), 0, None, lit(",")),
                        lit(")"),
                    ]),
                    bind("d", class(&[('0', '9')])),
                ]),
            ),
        ],
    }
}

#[test]
fn rules_may_refer_to_each_other_and_to_themselves() {
    let rules = digits_grammar();
    for input in ["1", "()", "(1)", "(1,2)", "((1),(2,(3)),4)"] {
        let mut state = ParserState::new(input);
        assert!(state.parse_full_input(&rules, "start").is_ok(), "{:?}", input);
    }
    for input in ["", "(", "(1,)", "(1 2)", "1)", "(1,2"] {
        let mut state = ParserState::new(input);
        assert!(!state.parse_full_input(&rules, "start").is_ok(), "{:?}", input);
    }
}

#[test]
fn rule_reference_keeps_the_value_and_drops_the_captures() {
    let rules = digits_grammar();
    let mut state = ParserState::new("7");
    let direct = state.parse_rule(0, &rules, "list");
    let (captures, value) = direct.result.unwrap();
    assert_eq!(value, ActionResult::Value((0, 1)));
    assert!(captures.get("d").is_none());
    let through = state.parse_expr(0, &rules, &RuleBody::Rule("list".to_string()));
    let (captures, value) = through.result.unwrap();
    assert_eq!(value, ActionResult::Value((0, 1)));
    assert!(captures.get("d").is_none());
}

#[test]
fn parse_rule_hands_back_the_captures_of_the_body() {
    let rules = GrammarFile { rules: vec![rule("r", bind("d", lit("x")))] };
    let mut state = ParserState::new("x");
    let res = state.parse_rule(0, &rules, "r");
    assert_eq!(res.result.unwrap().0.get("d"), Some(&ActionResult::Value((0, 1))));
}

#[test]
fn parsing_a_rule_twice_gives_the_same_outcome() {
    let rules = digits_grammar();
    let mut state = ParserState::new("((1),(2,(3)),4)x");
    assert!(state.recall(1, 0).is_none());
    let first = state.parse_rule(0, &rules, "list");
    let remembered = state.recall(1, 0).unwrap();
    let second = state.parse_rule(0, &rules, "list");
    assert!(same(&first, &second, &["d"]));
    assert!(same(&first, &remembered, &["d"]));
    assert_eq!(first.pos, 15);
    assert!(state.recall(1, 1).is_some());
    assert!(state.recall(1, 15).is_none());
    let failed_first = state.parse_rule(15, &rules, "list");
    let failed_second = state.parse_rule(15, &rules, "list");
    assert!(!failed_first.is_ok());
    assert!(same(&failed_first, &failed_second, &["d"]));
    assert!(same(&copy_parsed(&first), &first, &["d"]));
}

#[test]
fn a_later_declaration_of_a_name_counts() {
    let rules = GrammarFile { rules: vec![rule("start", lit("old")), rule("start", lit("new"))] };
    assert_eq!(rules.find("start"), Some(1));
    assert_eq!(rules.find("other"), None);
    let mut state = ParserState::new("new");
    assert!(state.parse_full_input(&rules, "start").is_ok());
    let mut state = ParserState::new("old");
    assert!(!state.parse_full_input(&rules, "start").is_ok());
}

#[test]
fn full_input_turns_leftover_into_a_failure_at_its_start() {
    let rules = GrammarFile { rules: vec![rule("start", lit("lol"))] };
    let mut state = ParserState::new("lolz");
    let res = state.parse_full_input(&rules, "start");
    assert_eq!((res.is_ok(), res.pos, res.best_error), (false, 3, Some(3)));
    let mut state = ParserState::new("lol");
    let res = state.parse_full_input(&rules, "start");
    assert_eq!((res.is_ok(), res.pos, res.best_error), (true, 3, None));
    assert_eq!(value_of(&res), &ActionResult::Value((0, 3)));
    let mut state = ParserState::new("lo");
    let res = state.parse_full_input(&rules, "start");
    assert_eq!((res.is_ok(), res.pos, res.best_error), (false, 2, Some(2)));
}

#[test]
fn full_input_keeps_a_deeper_failure_than_the_leftover() {
    let rules = GrammarFile { rules: vec![rule("start", RuleBody::Choice(vec![lit("abcx"), lit("ab")]))] };
    let mut state = ParserState::new("abcd");
    let res = state.parse_full_input(&rules, "start");
    assert_eq!((res.is_ok(), res.pos, res.best_error), (false, 2, Some(3)));
}

#[test]
fn positions_never_move_backwards() {
    let rules = digits_grammar();
    let input = "((1),(2,(3)),4)x";
    for pos in 0..=input.len() {
        let mut state = ParserState::new(input);
        let res = state.parse_rule(pos, &rules, "list");
        assert!(res.pos >= pos);
        assert!(res.pos <= input.len());
        if let Some(deepest) = res.best_error {
            assert!(deepest >= pos && deepest <= input.len());
        }
    }
}

#[test]
fn validate_accepts_a_closed_grammar() {
    assert_eq!(digits_grammar().validate(), Ok(()));
    assert_eq!(no_rules().validate(), Ok(()));
}

#[test]
fn validate_names_the_first_undefined_rule() {
    let rules = GrammarFile {
        rules: vec![
            rule("start", RuleBody::Sequence(vec![lit("a"), RuleBody::Rule("tail".to_string())])),
            rule(
                "tail",
                RuleBody::Choice(vec![
                    repeat(lit("x"), 0, None, RuleBody::Rule("comma".to_string())),
                    RuleBody::Action(Box::new(RuleBody::Rule("gone".to_string())), RuleAction::Name("v".to_string())),
                ]),
            ),
        ],
    };
    assert_eq!(rules.validate(), Err(GrammarError::UndefinedRule("comma".to_string())));
    assert_eq!(rules.unresolved(&RuleBody::Rule("tail".to_string())), None);
    assert_eq!(
        rules.unresolved(&RuleBody::SliceInput(Box::new(bind("n", RuleBody::Rule("nope".to_string()))))),
        Some("nope".to_string())
    );
}

fn act(expr: RuleBody, action: RuleAction) -> RuleBody {
    RuleBody::Action(Box::new(expr), action)
}

fn name(n: &str) -> RuleAction {
    RuleAction::Name(n.to_string())
}

#[test]
fn captures_reach_through_sequences_and_captures_only() {
    let expr = RuleBody::Sequence(vec![
        bind("a", bind("b", lit("x"))),
        lit("y"),
        RuleBody::Choice(vec![bind("c", lit("z"))]),
        repeat(bind("d", lit("z")), 0, None, nothing()),
        RuleBody::SliceInput(Box::new(bind("e", lit("z")))),
        act(bind("f", lit("z")), name("f")),
        RuleBody::Sequence(vec![bind("g", lit("w"))]),
    ]);
    let names = expr.captures();
    for n in ["a", "b", "g"] {
        assert!(has_name(&names, n), "{}", n);
    }
    for n in ["c", "d", "e", "f", "x", ""] {
        assert!(!has_name(&names, n), "{}", n);
    }
    assert!(lit("x").captures().is_empty());
    assert!(RuleBody::Rule("r".to_string()).captures().is_empty());
}

#[test]
fn the_captures_of_a_match_are_those_of_the_expression() {
    let expr = RuleBody::Sequence(vec![bind("a", bind("b", lit("x"))), RuleBody::Choice(vec![bind("c", lit("z"))])]);
    let res = run("xz", 0, &expr);
    let (captures, _) = res.result.unwrap();
    assert_eq!(captures.get("a"), Some(&ActionResult::Value((0, 1))));
    assert_eq!(captures.get("b"), Some(&ActionResult::Value((0, 1))));
    assert!(captures.get("c").is_none());
}

#[test]
fn unbound_names_of_an_action() {
    let names = vec!["a".to_string(), "b".to_string()];
    assert_eq!(name("a").unbound(&names), None);
    assert_eq!(name("c").unbound(&names), Some("c".to_string()));
    assert_eq!(RuleAction::InputLiteral("c".to_string()).unbound(&names), None);
    let construct = RuleAction::Construct(
        "c".to_string(),
        vec![
            name("b"),
            RuleAction::Construct("In".to_string(), vec![name("a"), name("y")]),
            name("x"),
        ],
    );
    assert_eq!(construct.unbound(&names), Some("y".to_string()));
    assert_eq!(RuleAction::Construct("c".to_string(), vec![]).unbound(&vec![]), None);
}

#[test]
fn validate_actions_accepts_names_that_the_body_captures() {
    let rules = GrammarFile {
        rules: vec![rule(
            "start",
            act(
                RuleBody::Sequence(vec![lit("a"), bind("c", class(&[('w', 'y')])), bind("d", lit("q"))]),
                RuleAction::Construct("Pair".to_string(), vec![name("d"), name("c")]),
            ),
        )],
    };
    assert_eq!(rules.validate_actions(), Ok(()));
    assert_eq!(no_rules().validate_actions(), Ok(()));
}

#[test]
fn validate_actions_names_the_first_unbound_name() {
    let inner = act(bind("x", lit("a")), name("y"));
    let rules = GrammarFile {
        rules: vec![
            rule("fine", act(bind("v", lit("a")), name("v"))),
            rule(
                "start",
                act(
                    RuleBody::Sequence(vec![bind("l", lit("a")), RuleBody::Choice(vec![lit("b"), inner])]),
                    RuleAction::Construct("Pair".to_string(), vec![name("l"), name("x")]),
                ),
            ),
        ],
    };
    assert_eq!(rules.validate_actions(), Err(GrammarError::UnboundName("y".to_string())));
    let outer_only = act(
        RuleBody::Sequence(vec![bind("l", lit("a")), RuleBody::Choice(vec![bind("x", lit("b"))])]),
        RuleAction::Construct("Pair".to_string(), vec![name("l"), name("x")]),
    );
    assert_eq!(outer_only.unbound_action(), Some("x".to_string()));
    assert_eq!(repeat(lit("a"), 0, None, act(lit(","), name("sep"))).unbound_action(), Some("sep".to_string()));
}

fn left_recursive() -> GrammarFile {
    GrammarFile {
        rules: vec![rule(
            "e",
            RuleBody::Choice(vec![RuleBody::Sequence(vec![RuleBody::Rule("e".to_string()), lit("+1")]), lit("1")]),
        )],
    }
}

#[test]
fn within_a_limit_a_defined_rule_has_its_outcome() {
    let rules = digits_grammar();
    for input in ["1", "(1)", "((1),(2,(3)),4)", "(1,", "x"] {
        let mut free = ParserState::new(input);
        let unlimited = free.parse_full_input(&rules, "start");
        let mut state = ParserState::new(input);
        let limited = state.parse_full_input_within(&rules, "start", 20).unwrap();
        assert!(same(&unlimited, &limited, &["d"]), "{:?}", input);
        let mut free = ParserState::new(input);
        let unlimited = free.parse_rule(0, &rules, "list");
        let mut state = ParserState::new(input);
        let limited = state.parse_rule_within(0, &rules, "list", 20).unwrap();
        assert!(same(&unlimited, &limited, &["d"]), "{:?}", input);
    }
}

#[test]
fn the_limit_counts_nested_rule_references() {
    let rules = digits_grammar();
    let mut state = ParserState::new("1");
    assert!(state.parse_rule_within(0, &rules, "start", 0).is_none());
    let mut state = ParserState::new("1");
    assert!(state.parse_rule_within(0, &rules, "start", 1).is_none());
    let mut state = ParserState::new("1");
    assert_eq!(state.parse_rule_within(0, &rules, "start", 2).unwrap().pos, 1);
    let mut state = ParserState::new("(1)");
    assert!(state.parse_rule_within(0, &rules, "start", 2).is_none());
    let mut state = ParserState::new("(1)");
    assert_eq!(state.parse_rule_within(0, &rules, "start", 3).unwrap().pos, 3);
}

#[test]
fn remembered_outcomes_do_not_count_towards_the_limit() {
    let rules = digits_grammar();
    let mut state = ParserState::new("((1))");
    assert!(state.parse_rule_within(0, &rules, "list", 1).is_none());
    let deep = state.parse_rule_within(0, &rules, "list", 9).unwrap();
    assert_eq!((deep.is_ok(), deep.pos), (true, 5));
    let again = state.parse_rule_within(0, &rules, "list", 1).unwrap();
    assert!(same(&deep, &again, &["d"]));
}

#[test]
fn within_a_limit_an_undefined_rule_has_no_outcome() {
    let rules = GrammarFile { rules: vec![rule("start", RuleBody::Sequence(vec![lit("a"), RuleBody::Rule("gone".to_string())]))] };
    let mut state = ParserState::new("ab");
    assert!(state.parse_rule_within(0, &rules, "start", 50).is_none());
    assert!(state.parse_rule_within(0, &rules, "gone", 50).is_none());
    assert!(state.parse_full_input_within(&rules, "start", 50).is_none());
    let mut state = ParserState::new("xb");
    let res = state.parse_rule_within(0, &rules, "start", 50).unwrap();
    assert_eq!((res.is_ok(), res.pos), (false, 0));
}

#[test]
fn within_a_limit_left_recursion_has_no_outcome() {
    let rules = left_recursive();
    let mut state = ParserState::new("1+1");
    assert!(state.parse_rule_within(0, &rules, "e", 0).is_none());
    assert!(state.parse_rule_within(0, &rules, "e", 1).is_none());
    assert!(state.parse_rule_within(0, &rules, "e", 100).is_none());
    assert!(state.parse_expr_within(0, &rules, &RuleBody::Rule("e".to_string()), 100).is_none());
    assert!(state.parse_full_input_within(&rules, "e", 100).is_none());
}

#[test]
fn an_expression_without_rule_references_needs_no_depth() {
    let expr = RuleBody::Sequence(vec![lit("a"), repeat(class(&[('0', '9')]), 1, None, lit(","))]);
    let mut state = ParserState::new("a1,2");
    let res = state.parse_expr_within(0, &no_rules(), &expr, 0).unwrap();
    assert_eq!((res.is_ok(), res.pos, res.best_error), (true, 4, Some(4)));
    let res = state.parse_expr_within(1, &no_rules(), &expr, 0).unwrap();
    assert_eq!((res.is_ok(), res.pos, res.best_error), (false, 1, Some(1)));
}
