use jonla::jerror::JErrorEntry;
use jonla::jonla::{
    char_in_run, exact_str, furthest_fail, parse_form, parse_jonla_program, parse_jonla_term,
    parse_lamday_term, parse_name, parse_usize, scan, symbol_str, ParseFail, ParseSuccess,
};
use jonla::jonla_syntax::{Expected, Form, Run, Symbol};
use jonla::lambday::{share_terms, LambdayTerm};
use jonla::text::{str_eq, to_chars};
use std::rc::Rc;

fn chars(s: &str) -> Vec<char> {
    s.chars().collect()
}

fn var(span: (usize, usize), name: &str) -> LambdayTerm {
    LambdayTerm::Var(span, name.to_string())
}

fn rc(t: LambdayTerm) -> Rc<LambdayTerm> {
    Rc::new(t)
}

fn fail(pos: usize, expected: Expected) -> ParseFail {
    ParseFail { pos, expected }
}

fn first_form(pos: usize) -> Option<ParseFail> {
    Some(fail(pos, Expected::Symbol(Symbol::ProdType)))
}

fn term(src: &str) -> LambdayTerm {
    let ok = parse_jonla_term(&chars(src), 0).unwrap();
    assert_eq!(ok.pos, src.chars().count());
    ok.result
}

#[test]
fn to_chars_and_str_eq() {
    assert_eq!(to_chars("aé→"), vec!['a', 'é', '→']);
    assert_eq!(to_chars(""), Vec::<char>::new());
    assert!(str_eq("", ""));
    assert!(str_eq("abc", "abc"));
    assert!(!str_eq("abc", "abd"));
    assert!(!str_eq("abc", "ab"));
    assert!(!str_eq("ab", "abc"));
    assert!(!str_eq("é", "e"));
}

#[test]
fn runs_of_characters() {
    assert!(char_in_run(Run::Space, ' ') && char_in_run(Run::Space, '\n'));
    assert!(char_in_run(Run::Space, '\t') && char_in_run(Run::Space, '\r'));
    assert!(!char_in_run(Run::Space, 'a') && !char_in_run(Run::Space, '\u{a0}'));
    assert!(char_in_run(Run::Digit, '0') && char_in_run(Run::Digit, '9'));
    assert!(!char_in_run(Run::Digit, '/') && !char_in_run(Run::Digit, ':') && !char_in_run(Run::Digit, '٣'));
    assert!(char_in_run(Run::Letter, 'a') && char_in_run(Run::Letter, 'Z') && char_in_run(Run::Letter, 'é'));
    assert!(!char_in_run(Run::Letter, '1') && !char_in_run(Run::Letter, '#') && !char_in_run(Run::Letter, ' '));
    let src = chars("  \n ab12 ");
    assert_eq!(scan(&src, 0, Run::Space), 4);
    assert_eq!(scan(&src, 4, Run::Space), 4);
    assert_eq!(scan(&src, 4, Run::Letter), 6);
    assert_eq!(scan(&src, 6, Run::Digit), 8);
    assert_eq!(scan(&src, 8, Run::Space), 9);
    assert_eq!(scan(&src, 9, Run::Space), 9);
    assert_eq!(scan(&src, 20, Run::Space), 20);
}

#[test]
fn symbols_have_their_texts() {
    assert_eq!(symbol_str(Symbol::ProdType), "#pt");
    assert_eq!(symbol_str(Symbol::ProdConstr), "#pc");
    assert_eq!(symbol_str(Symbol::ProdDestr), "#pd");
    assert_eq!(symbol_str(Symbol::SumType), "#st");
    assert_eq!(symbol_str(Symbol::SumConstr), "#sc");
    assert_eq!(symbol_str(Symbol::SumDestr), "#sd");
    assert_eq!(symbol_str(Symbol::FunType), "#ft");
    assert_eq!(symbol_str(Symbol::FunConstr), "#fc");
    assert_eq!(symbol_str(Symbol::FunDestr), "#fd");
    assert_eq!(symbol_str(Symbol::TypeType), "#tt");
    assert_eq!(symbol_str(Symbol::Open), "(");
    assert_eq!(symbol_str(Symbol::Close), ")");
    assert_eq!(symbol_str(Symbol::Arrow), "->");
    assert_eq!(symbol_str(Symbol::Colon), ":");
}

#[test]
fn exact_str_compares_at_a_position() {
    let src = chars("a->b");
    assert!(exact_str(&src, 1, "->"));
    assert!(!exact_str(&src, 0, "->"));
    assert!(!exact_str(&src, 3, "->"));
    assert!(exact_str(&src, 3, "b"));
    assert!(!exact_str(&src, 4, "b"));
    assert!(exact_str(&src, 4, ""));
    assert!(!exact_str(&src, 5, ""));
    assert!(!exact_str(&chars("-"), 0, "->"));
}

#[test]
fn furthest_fail_prefers_the_first_on_a_tie() {
    let a = fail(3, Expected::Name);
    let b = fail(3, Expected::Number);
    let c = fail(4, Expected::EndOfInput);
    assert_eq!(furthest_fail(None, None), None);
    assert_eq!(furthest_fail(Some(a), None), Some(a));
    assert_eq!(furthest_fail(None, Some(b)), Some(b));
    assert_eq!(furthest_fail(Some(a), Some(b)), Some(a));
    assert_eq!(furthest_fail(Some(b), Some(a)), Some(b));
    assert_eq!(furthest_fail(Some(a), Some(c)), Some(c));
    assert_eq!(furthest_fail(Some(c), Some(a)), Some(c));
}

#[test]
fn name_is_the_longest_run_of_letters() {
    assert_eq!(
        parse_name(&chars("abc1"), 0),
        Ok(ParseSuccess { result: "abc".to_string(), best_error: None, pos: 3 })
    );
    assert_eq!(
        parse_name(&chars("x été)"), 2),
        Ok(ParseSuccess { result: "été".to_string(), best_error: None, pos: 5 })
    );
    assert_eq!(parse_name(&chars("1abc"), 0), Err(fail(0, Expected::Name)));
    assert_eq!(parse_name(&chars(" abc"), 0), Err(fail(0, Expected::Name)));
    assert_eq!(parse_name(&chars("abc"), 3), Err(fail(3, Expected::Name)));
    assert_eq!(parse_name(&chars("abc"), 7), Err(fail(7, Expected::Name)));
}

#[test]
fn number_is_the_longest_run_of_digits() {
    assert_eq!(parse_usize(&chars("123x"), 0), Ok(ParseSuccess { result: 123, best_error: None, pos: 3 }));
    assert_eq!(parse_usize(&chars("a007"), 1), Ok(ParseSuccess { result: 7, best_error: None, pos: 4 }));
    assert_eq!(parse_usize(&chars("0"), 0), Ok(ParseSuccess { result: 0, best_error: None, pos: 1 }));
    assert_eq!(parse_usize(&chars(""), 0), Err(fail(0, Expected::Number)));
    assert_eq!(parse_usize(&chars("x1"), 0), Err(fail(0, Expected::Number)));
    assert_eq!(parse_usize(&chars("-1"), 0), Err(fail(0, Expected::Number)));
}

#[test]
fn number_that_no_machine_word_holds_is_no_number() {
    let max = usize::MAX.to_string();
    assert_eq!(
        parse_usize(&chars(&max), 0),
        Ok(ParseSuccess { result: usize::MAX, best_error: None, pos: max.len() })
    );
    let mut over = max.clone();
    over.push('0');
    assert_eq!(parse_usize(&chars(&over), 0), Err(fail(0, Expected::Number)));
    let next = format!("{}", usize::MAX as u128 + 1);
    assert_eq!(parse_usize(&chars(&next), 0), Err(fail(0, Expected::Number)));
}

#[test]
fn type_of_types() {
    assert_eq!(
        parse_jonla_term(&chars("#tt"), 0),
        Ok(ParseSuccess { result: LambdayTerm::TypeType((0, 3)), best_error: first_form(0), pos: 3 })
    );
}

#[test]
fn variable_after_white_space() {
    assert_eq!(
        parse_jonla_term(&chars(" \n x y"), 0),
        Ok(ParseSuccess { result: var((0, 4), "x"), best_error: first_form(3), pos: 4 })
    );
}

#[test]
fn parse_lamday_term_is_parse_jonla_term() {
    for src in ["#tt", "x", "#pt(a b)", "#pt(", "", "?"] {
        assert_eq!(parse_lamday_term(&chars(src), 0), parse_jonla_term(&chars(src), 0));
    }
}

#[test]
fn product_type() {
    assert_eq!(
        parse_jonla_term(&chars("#pt(#tt a)"), 0),
        Ok(ParseSuccess {
            result: LambdayTerm::ProdType(
                (0, 10),
                vec![rc(LambdayTerm::TypeType((4, 7))), rc(var((7, 9), "a"))]
            ),
            best_error: first_form(9),
            pos: 10,
        })
    );
    assert_eq!(term("#pt()"), LambdayTerm::ProdType((0, 5), vec![]));
}

#[test]
fn product_constructor_and_destructor() {
    assert_eq!(
        term("#pc(t)(a)"),
        LambdayTerm::ProdConstr((0, 9), rc(var((4, 5), "t")), vec![rc(var((7, 8), "a"))])
    );
    assert_eq!(term("#pd(x)12"), LambdayTerm::ProdDestr((0, 8), rc(var((4, 5), "x")), 12));
    assert_eq!(term("#pd ( x ) 12"), LambdayTerm::ProdDestr((0, 12), rc(var((5, 7), "x")), 12));
}

#[test]
fn sum_forms() {
    assert_eq!(term("#st()"), LambdayTerm::SumType((0, 5), vec![]));
    assert_eq!(
        term("#sc(s)1(v)"),
        LambdayTerm::SumConstr((0, 10), rc(var((4, 5), "s")), 1, rc(var((8, 9), "v")))
    );
    assert_eq!(
        term("#sd(v)(t)(a b)"),
        LambdayTerm::SumDestr(
            (0, 14),
            rc(var((4, 5), "v")),
            rc(var((7, 8), "t")),
            vec![rc(var((10, 11), "a")), rc(var((11, 13), "b"))]
        )
    );
}

#[test]
fn function_forms() {
    assert_eq!(
        term("#ft(#tt->#tt)"),
        LambdayTerm::FunType((0, 13), rc(LambdayTerm::TypeType((4, 7))), rc(LambdayTerm::TypeType((9, 12))))
    );
    assert_eq!(
        term("#fc(x:#tt)(x)"),
        LambdayTerm::FunConstr(
            (0, 13),
            "x".to_string(),
            rc(LambdayTerm::TypeType((6, 9))),
            rc(var((11, 12), "x"))
        )
    );
    assert_eq!(term("#fd(f)(a)"), LambdayTerm::FunDestr((0, 9), rc(var((4, 5), "f")), rc(var((7, 8), "a"))));
}

#[test]
fn nested_terms() {
    assert_eq!(
        term("#fd(#fc(x:#tt)(x))(#pt())"),
        LambdayTerm::FunDestr(
            (0, 25),
            rc(LambdayTerm::FunConstr(
                (4, 17),
                "x".to_string(),
                rc(LambdayTerm::TypeType((10, 13))),
                rc(var((15, 16), "x"))
            )),
            rc(LambdayTerm::ProdType((19, 24), vec![]))
        )
    );
}

#[test]
fn a_term_starts_where_it_is_asked_for() {
    let src = chars("xx #tt");
    assert_eq!(
        parse_jonla_term(&src, 2),
        Ok(ParseSuccess { result: LambdayTerm::TypeType((2, 6)), best_error: first_form(3), pos: 6 })
    );
    assert_eq!(parse_jonla_term(&src, 6), Err(fail(6, Expected::Symbol(Symbol::ProdType))));
    assert_eq!(parse_jonla_term(&src, 9), Err(fail(9, Expected::Symbol(Symbol::ProdType))));
}

#[test]
fn failures_are_the_furthest_met() {
    assert_eq!(parse_jonla_term(&chars(""), 0), Err(fail(0, Expected::Symbol(Symbol::ProdType))));
    assert_eq!(parse_jonla_term(&chars("?"), 0), Err(fail(0, Expected::Symbol(Symbol::ProdType))));
    assert_eq!(parse_jonla_term(&chars("#pt("), 0), Err(fail(4, Expected::Symbol(Symbol::ProdType))));
    assert_eq!(parse_jonla_term(&chars("#pd(x)y"), 0), Err(fail(6, Expected::Number)));
    assert_eq!(parse_jonla_term(&chars("#pt a"), 0), Err(fail(4, Expected::Symbol(Symbol::Open))));
    assert_eq!(parse_jonla_term(&chars("#fc(1"), 0), Err(fail(4, Expected::Name)));
    assert_eq!(parse_jonla_term(&chars("#fc(x #tt)"), 0), Err(fail(6, Expected::Symbol(Symbol::Colon))));
    assert_eq!(parse_jonla_term(&chars("#ft(a b)"), 0), Err(fail(6, Expected::Symbol(Symbol::Arrow))));
}

#[test]
fn forms_are_read_one_by_one() {
    let src = chars("#tt");
    assert_eq!(
        parse_form(&src, 0, Form::TypeType),
        Ok(ParseSuccess { result: LambdayTerm::TypeType((0, 3)), best_error: None, pos: 3 })
    );
    assert_eq!(parse_form(&src, 0, Form::Var), Err(fail(0, Expected::Name)));
    assert_eq!(parse_form(&src, 0, Form::SumDestr), Err(fail(0, Expected::Symbol(Symbol::SumDestr))));
    assert_eq!(parse_form(&src, 0, Form::ProdType), Err(fail(0, Expected::Symbol(Symbol::ProdType))));
    assert_eq!(parse_form(&src, 0, Form::ProdConstr), Err(fail(0, Expected::Symbol(Symbol::ProdConstr))));
    assert_eq!(parse_form(&src, 0, Form::ProdDestr), Err(fail(0, Expected::Symbol(Symbol::ProdDestr))));
    assert_eq!(parse_form(&src, 0, Form::SumType), Err(fail(0, Expected::Symbol(Symbol::SumType))));
    assert_eq!(parse_form(&src, 0, Form::SumConstr), Err(fail(0, Expected::Symbol(Symbol::SumConstr))));
    assert_eq!(parse_form(&src, 0, Form::FunType), Err(fail(0, Expected::Symbol(Symbol::FunType))));
    assert_eq!(parse_form(&src, 0, Form::FunConstr), Err(fail(0, Expected::Symbol(Symbol::FunConstr))));
    assert_eq!(parse_form(&src, 0, Form::FunDestr), Err(fail(0, Expected::Symbol(Symbol::FunDestr))));
}

#[test]
fn program_is_terms_up_to_the_end() {
    assert_eq!(
        parse_jonla_program(&chars("#tt x\n")),
        Ok(ParseSuccess {
            result: vec![LambdayTerm::TypeType((0, 3)), var((3, 5), "x")],
            best_error: first_form(6),
            pos: 6,
        })
    );
    assert_eq!(
        parse_jonla_program(&chars("")),
        Ok(ParseSuccess { result: vec![], best_error: first_form(0), pos: 0 })
    );
    assert_eq!(
        parse_jonla_program(&chars("  \n")),
        Ok(ParseSuccess { result: vec![], best_error: first_form(3), pos: 3 })
    );
}

#[test]
fn program_that_goes_on_fails_with_the_furthest_failure() {
    assert_eq!(parse_jonla_program(&chars("#tt )")), Err(fail(4, Expected::EndOfInput)));
    assert_eq!(parse_jonla_program(&chars("?")), Err(fail(0, Expected::EndOfInput)));
    assert_eq!(parse_jonla_program(&chars("#pt(")), Err(fail(4, Expected::Symbol(Symbol::ProdType))));
    assert_eq!(parse_jonla_program(&chars("x #pd(y)z w")), Err(fail(8, Expected::Number)));
}

#[test]
fn shared_terms_keep_their_order() {
    assert_eq!(share_terms(vec![]), Vec::<Rc<LambdayTerm>>::new());
    assert_eq!(
        share_terms(vec![var((0, 1), "a"), LambdayTerm::TypeType((1, 4)), var((4, 6), "b")]),
        vec![rc(var((0, 1), "a")), rc(LambdayTerm::TypeType((1, 4))), rc(var((4, 6), "b"))]
    );
}

#[test]
fn failures_become_diagnostics() {
    let at_end = fail(4, Expected::Symbol(Symbol::Close));
    assert_eq!(at_end.entry(4), JErrorEntry::UnexpectedEOF((4, 4)));
    assert_eq!(at_end.entry(3), JErrorEntry::UnexpectedEOF((4, 4)));
    assert_eq!(at_end.entry(9), JErrorEntry::UnexpectedStr((4, 5), ")"));
    assert_eq!(fail(2, Expected::Name).entry(9), JErrorEntry::UnexpectedString((2, 3), "name".to_string()));
    assert_eq!(fail(2, Expected::Number).entry(9), JErrorEntry::UnexpectedString((2, 3), "number".to_string()));
    assert_eq!(fail(0, Expected::EndOfInput).entry(9), JErrorEntry::UnexpectedStr((0, 1), "end of input"));
}
