//! Tests of the combinator engine: sequencing, alternation, repetition,
//! optional parsers, predicate filtering, and fatal escalation.

use parsing::input::Input;
use parsing::output::Output;
use parsing::parser::{any, bind, exact, peek, the, unit, Next, Parser};
use parsing::value::{PredOp, Val};

#[test]
fn unit_succeeds_with_zero_width() {
    let p = unit(Val::Ch('z'));
    let mut input = Input::new("");
    let v = p.parse(&mut input);
    assert!(matches!(v, Output::Success(Val::Ch('z'), 0, 0)));
}

#[test]
fn the_matches_one_character() {
    let p = the('a');
    let mut input = Input::new("ab");
    assert!(matches!(p.parse(&mut input), Output::Success(Val::Ch('a'), 0, 1)));

    let mut input = Input::new("b");
    assert!(matches!(p.parse(&mut input), Output::Failure(0)));
}

#[test]
fn any_fails_only_at_end_of_input() {
    let p = any();
    let mut input = Input::new("x");
    assert!(matches!(p.parse(&mut input), Output::Success(Val::Ch('x'), 0, 1)));
    assert!(matches!(p.parse(&mut input), Output::Failure(1)));
}

#[test]
fn peek_does_not_consume() {
    let p = peek();
    let mut input = Input::new("x");
    assert!(matches!(p.parse(&mut input), Output::Success(Val::Ch('x'), 0, 0)));
    // Still at the start: the character can be read again.
    assert_eq!(input.get_char(), Ok((0, 'x')));
}

#[test]
fn bind_second_produces_continuation_value() {
    let p = bind(exact("a"), Next::Second(Box::new(exact("b"))));
    let mut input = Input::new("ab");
    match p.parse(&mut input) {
        Output::Success(Val::Txt(cs), 1, 2) => assert_eq!(cs, vec!['b']),
        it => panic!("unexpected output: {:?}", it),
    }
}

#[test]
fn bind_first_keeps_bound_value() {
    let p = bind(exact("a"), Next::First(Box::new(exact("b"))));
    let mut input = Input::new("ab");
    match p.parse(&mut input) {
        Output::Success(Val::Txt(cs), 1, 2) => assert_eq!(cs, vec!['a']),
        it => panic!("unexpected output: {:?}", it),
    }
}

#[test]
fn bind_rolls_back_when_continuation_fails() {
    let p = bind(exact("a"), Next::Second(Box::new(exact("b"))));
    let mut input = Input::new("ax");
    assert!(matches!(p.parse(&mut input), Output::Failure(1)));
    // The cursor is back at the very start, as if nothing ran.
    assert_eq!(input.get_char(), Ok((0, 'a')));
}

#[test]
fn or_backtracks_to_original_position() {
    // The first branch consumes "a" before failing on "b"; the second
    // branch must see the input from the original position.
    let p = exact("ab").or(exact("ax"));
    let mut input = Input::new("ax");
    match p.parse(&mut input) {
        Output::Success(Val::Txt(cs), 0, 2) => assert_eq!(cs, vec!['a', 'x']),
        it => panic!("unexpected output: {:?}", it),
    }
    // The whole input is consumed, exactly as running the second branch
    // alone would have left it.
    assert_eq!(input.get_char(), Err(2));
}

#[test]
fn or_does_not_try_second_branch_after_fatal() {
    let p = exact("x").fatal().or(exact("a"));
    let mut input = Input::new("a");
    assert!(matches!(p.parse(&mut input), Output::Fatal(0)));
}

#[test]
fn fatal_escalates_failure() {
    let p = exact("b").fatal();
    let mut input = Input::new("a");
    assert!(matches!(p.parse(&mut input), Output::Fatal(0)));
}

#[test]
fn fatal_passes_success_through() {
    let p = exact("a").fatal();
    let mut input = Input::new("a");
    assert!(matches!(p.parse(&mut input), Output::Success(Val::Txt(_), 0, 1)));
}

#[test]
fn maybe_wraps_success() {
    let p = exact("x").maybe();
    let mut input = Input::new("xy");
    match p.parse(&mut input) {
        Output::Success(Val::Just(b), 0, 1) => assert!(matches!(*b, Val::Txt(_))),
        it => panic!("unexpected output: {:?}", it),
    }
}

#[test]
fn maybe_turns_failure_into_absent_value() {
    let p = exact("x").maybe();
    let mut input = Input::new("yz");
    assert!(matches!(p.parse(&mut input), Output::Success(Val::Nothing, 0, 0)));
    // The cursor is unchanged from before the inner parser ran.
    assert_eq!(input.get_char(), Ok((0, 'y')));
}

#[test]
fn when_filters_by_predicate() {
    let digit = any().when(PredOp::Digit);
    let mut input = Input::new("5");
    assert!(matches!(digit.parse(&mut input), Output::Success(Val::Ch('5'), 0, 1)));

    let digit = any().when(PredOp::Digit);
    let mut input = Input::new("x");
    assert!(matches!(digit.parse(&mut input), Output::Failure(0)));
}

#[test]
fn zero_or_more_collects_matches() {
    let p = any().when(PredOp::Digit).zero_or_more();
    let mut input = Input::new("42x");
    match p.parse(&mut input) {
        Output::Success(Val::List(items), 0, 2) => {
            assert_eq!(items.len(), 2);
            assert!(matches!(items[0], Val::Ch('4')));
            assert!(matches!(items[1], Val::Ch('2')));
        },
        it => panic!("unexpected output: {:?}", it),
    }
    assert_eq!(input.get_char(), Ok((2, 'x')));
}

#[test]
fn zero_or_more_succeeds_on_no_match() {
    let p = any().when(PredOp::Digit).zero_or_more();
    let mut input = Input::new("abc");
    match p.parse(&mut input) {
        Output::Success(Val::List(items), 0, 0) => assert_eq!(items.len(), 0),
        it => panic!("unexpected output: {:?}", it),
    }
    // Nothing was consumed.
    assert_eq!(input.get_char(), Ok((0, 'a')));
}

#[test]
fn zero_or_more_propagates_fatal() {
    let p = exact("ab").fatal().zero_or_more();
    let mut input = Input::new("ax");
    assert!(matches!(p.parse(&mut input), Output::Fatal(1)));
}

#[test]
fn one_or_more_fails_without_first_match() {
    let p = any().when(PredOp::Digit).one_or_more();
    let mut input = Input::new("abc");
    assert!(matches!(p.parse(&mut input), Output::Failure(0)));
    // The cursor stands at its original position.
    assert_eq!(input.get_char(), Ok((0, 'a')));
}

#[test]
fn one_or_more_collects_all_matches() {
    let p = any().when(PredOp::Digit).one_or_more();
    let mut input = Input::new("12a");
    match p.parse(&mut input) {
        Output::Success(Val::List(items), 0, 2) => assert_eq!(items.len(), 2),
        it => panic!("unexpected output: {:?}", it),
    }
    assert_eq!(input.get_char(), Ok((2, 'a')));
}

#[test]
fn exact_parser_reports_mismatch_position() {
    let p = exact("string");
    let mut input = Input::new("strong");
    assert!(matches!(p.parse(&mut input), Output::Failure(3)));
    assert_eq!(input.get_char(), Ok((0, 's')));
}

#[test]
fn parser_values_are_reusable() {
    let p: Parser = exact("aa");
    let mut input = Input::new("aaaa");
    assert!(matches!(p.parse(&mut input), Output::Success(_, 0, 2)));
    assert!(matches!(p.parse(&mut input), Output::Success(_, 2, 4)));
}
