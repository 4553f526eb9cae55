//! Tests of the grammar layer: literals, keywords, punctuation,
//! whitespace handling, and the whole-document entry point.

use parsing::ast::Ast;
use parsing::grammar::{bool_literal, junk, key, number_literal, parse, punct, string_literal, ParseError};
use parsing::input::Input;
use parsing::output::Output;
use parsing::value::Val;

#[test]
fn number_literal_should_parse_positive_value() {
    let p = number_literal();
    let mut input = Input::new("1234");

    let v = p.parse(&mut input);

    assert!(matches!(v, Output::Success(Val::Node(Ast::Integer(1234)), _, _)));
}

#[test]
fn number_literal_end_offset_is_digit_run_length() {
    let p = number_literal();
    let mut input = Input::new("007 ");
    assert!(matches!(p.parse(&mut input), Output::Success(Val::Node(Ast::Integer(7)), 0, 3)));
}

#[test]
fn number_literal_rejects_value_beyond_i64() {
    let p = number_literal();
    // One more than i64::MAX: the digits match, the reduction rejects.
    let mut input = Input::new("9223372036854775808");
    assert!(matches!(p.parse(&mut input), Output::Failure(0)));
    // And the largest value that fits is accepted.
    let p = number_literal();
    let mut input = Input::new("9223372036854775807");
    assert!(matches!(
        p.parse(&mut input),
        Output::Success(Val::Node(Ast::Integer(9223372036854775807)), 0, 19)
    ));
}

#[test]
fn bool_literal_should_parse_true() {
    let p = bool_literal();
    let mut input = Input::new("true ");

    let v = p.parse(&mut input);

    match v {
        Output::Success(Val::Node(Ast::Bool(b)), _, _) => assert_eq!(b, true),
        it => panic!("unexpected output: {:?}", it),
    }
}

#[test]
fn bool_literal_should_parse_false() {
    let p = bool_literal();
    let mut input = Input::new("false ");

    let v = p.parse(&mut input);

    match v {
        Output::Success(Val::Node(Ast::Bool(b)), _, _) => assert_eq!(b, false),
        it => panic!("unexpected output: {:?}", it),
    }
}

#[test]
fn bool_literal_should_not_parse_symbol_starting_with_bool() {
    let p = bool_literal();
    let mut input = Input::new("falsey");

    let v = p.parse(&mut input);

    assert!(matches!(v, Output::Failure(_)));
}

#[test]
fn key_parser_should_fail_illegitimate_target() {
    let p = key("blah");
    let mut input = Input::new("  blahx  ");

    let v = p.parse(&mut input);

    assert!(matches!(v, Output::Failure(_)));
}

#[test]
fn key_parser_should_parse_legit_target() {
    let p = key("blah");
    let mut input = Input::new("  blah  ");

    let v = p.parse(&mut input);

    assert!(matches!(v, Output::Success(_, _, _)));
}

#[test]
fn key_consumes_surrounding_whitespace() {
    let p = key("blah");
    let mut input = Input::new("  blah  ");
    assert!(matches!(p.parse(&mut input), Output::Success(_, _, _)));
    // The cursor stands at the end of the input.
    assert_eq!(input.get_char(), Err(8));
}

#[test]
fn key_failure_restores_cursor_to_start_of_attempt() {
    let p = key("blah");
    let mut input = Input::new("  blahx  ");
    assert!(matches!(p.parse(&mut input), Output::Failure(_)));
    // Even the speculatively consumed leading whitespace is given back.
    assert_eq!(input.get_char(), Ok((0, ' ')));
}

#[test]
fn punct_matches_token_amid_whitespace() {
    let p = punct("(");
    let mut input = Input::new(" ( ");
    // The value is the token; the reported range is that of the last
    // part of the trimmed sequence, the trailing whitespace run.
    match p.parse(&mut input) {
        Output::Success(Val::Txt(cs), _, _) => assert_eq!(cs, vec!['(']),
        it => panic!("unexpected output: {:?}", it),
    }
    assert_eq!(input.get_char(), Err(3));
}

#[test]
fn junk_consumes_exactly_one_whitespace_character() {
    let p = junk();
    let mut input = Input::new("  x");
    assert!(matches!(p.parse(&mut input), Output::Success(Val::Nil, 0, 1)));
    assert_eq!(input.get_char(), Ok((1, ' ')));
}

#[test]
fn string_literal_parses_quoted_text() {
    let p = string_literal();
    let mut input = Input::new("\"ab\"");
    match p.parse(&mut input) {
        Output::Success(Val::Node(Ast::Text(cs)), _, _) => assert_eq!(cs, vec!['a', 'b']),
        it => panic!("unexpected output: {:?}", it),
    }
}

#[test]
fn string_literal_decodes_escapes() {
    let p = string_literal();
    let mut input = Input::new("\"a\\nb\\t\\\\\\\"\"");
    match p.parse(&mut input) {
        Output::Success(Val::Node(Ast::Text(cs)), _, _) => {
            assert_eq!(cs, vec!['a', '\n', 'b', '\t', '\\', '"'])
        },
        it => panic!("unexpected output: {:?}", it),
    }
}

#[test]
fn string_literal_rejects_unterminated_text() {
    let p = string_literal();
    let mut input = Input::new("\"ab");
    assert!(matches!(p.parse(&mut input), Output::Failure(_)));
}

#[test]
fn parse_returns_literals_in_order() {
    let nodes = parse("  12 true \"hi\" ").unwrap();
    assert_eq!(nodes.len(), 3);
    assert!(matches!(nodes[0], Ast::Integer(12)));
    assert!(matches!(nodes[1], Ast::Bool(true)));
    match &nodes[2] {
        Ast::Text(cs) => assert_eq!(cs, &vec!['h', 'i']),
        it => panic!("unexpected node: {:?}", it),
    }
}

#[test]
fn parse_of_empty_input_is_empty() {
    let nodes = parse("").unwrap();
    assert_eq!(nodes.len(), 0);
}

#[test]
fn parse_reports_position_of_trailing_garbage() {
    match parse("12 @") {
        Err(ParseError::Recoverable(p)) => assert_eq!(p, 3),
        it => panic!("unexpected result: {:?}", it),
    }
}

#[test]
fn parse_positions_are_character_offsets() {
    // A multi-byte scalar before the garbage: the position counts
    // characters, not bytes (a byte offset would be 5 here).
    match parse("\"é\" @") {
        Err(ParseError::Recoverable(p)) => assert_eq!(p, 4),
        it => panic!("unexpected result: {:?}", it),
    }
}
