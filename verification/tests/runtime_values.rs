//! The program's argument as a tagged word, tagged words as text, and the
//! messages of the run-time errors.

use snek::runtime::{error_message, parse_input, scalar_string, tuple_string};

#[test]
fn value_booleans_as_arguments() {
    assert_eq!(parse_input("true"), Some(7));
    assert_eq!(parse_input("false"), Some(3));
}

#[test]
fn value_integers_as_arguments() {
    assert_eq!(parse_input("0"), Some(0));
    assert_eq!(parse_input("10"), Some(20));
    assert_eq!(parse_input("+10"), Some(20));
    assert_eq!(parse_input("-0"), Some(0));
    assert_eq!(parse_input("007"), Some(14));
    assert_eq!(parse_input("-1"), Some(u64::MAX - 1));
    assert_eq!(parse_input("-5"), Some((-10i64) as u64));
    assert_eq!(parse_input("635"), Some(1270));
}

#[test]
fn value_arguments_at_the_edge_of_the_range() {
    assert_eq!(parse_input("4611686018427387903"), Some(9223372036854775806));
    assert_eq!(parse_input("4611686018427387904"), None);
    assert_eq!(parse_input("-4611686018427387904"), Some(9223372036854775808));
    assert_eq!(parse_input("-4611686018427387905"), None);
    assert_eq!(parse_input("9223372036854775807"), None);
    assert_eq!(parse_input("9223372036854775808"), None);
    assert_eq!(parse_input("-9223372036854775808"), None);
    assert_eq!(parse_input("99999999999999999999999999999999999999999999"), None);
    assert_eq!(parse_input("00000000000000000000000000000000000000000012"), Some(24));
}

#[test]
fn value_arguments_that_are_no_value() {
    for text in [
        "", "-", "+", "--1", "+-1", "1-", "1 ", " 1", "1.5", "1e3", "0x10", "True", "FALSE",
        "tru", "truee", "abc", "12a", "a12", "1_000", "１２",
    ] {
        assert_eq!(parse_input(text), None, "{text:?}");
    }
}

#[test]
fn value_scalars_as_text() {
    assert_eq!(scalar_string(3), Some(String::from("false")));
    assert_eq!(scalar_string(7), Some(String::from("true")));
    assert_eq!(scalar_string(0), Some(String::from("0")));
    assert_eq!(scalar_string(2), Some(String::from("1")));
    assert_eq!(scalar_string(1288), Some(String::from("644")));
    assert_eq!(scalar_string(u64::MAX - 1), Some(String::from("-1")));
    assert_eq!(scalar_string((-10i64) as u64), Some(String::from("-5")));
    assert_eq!(scalar_string(9223372036854775806), Some(String::from("4611686018427387903")));
    assert_eq!(scalar_string(9223372036854775808), Some(String::from("-4611686018427387904")));
}

#[test]
fn value_words_with_both_low_bits_set_are_shown_as_numbers() {
    assert_eq!(scalar_string(11), Some(String::from("5")));
    assert_eq!(scalar_string(15), Some(String::from("7")));
    assert_eq!(scalar_string(u64::MAX), Some(String::from("-1")));
}

#[test]
fn value_tuples_are_left_to_the_caller() {
    assert_eq!(scalar_string(1), None);
    assert_eq!(scalar_string(5), None);
    assert_eq!(scalar_string(0x1000_0001), None);
    assert_eq!(scalar_string(u64::MAX - 2), None);
}

#[test]
fn value_what_is_read_is_shown_again() {
    for text in ["true", "false", "0", "-1", "12", "4611686018427387903", "-4611686018427387904"] {
        let word = parse_input(text).unwrap();
        assert_eq!(scalar_string(word), Some(String::from(text)));
    }
}

#[test]
fn value_tuples_as_text() {
    assert_eq!(tuple_string(&vec![]), "[]");
    assert_eq!(tuple_string(&vec![String::from("1")]), "[1]");
    assert_eq!(
        tuple_string(&vec![String::from("1"), String::from("true"), String::from("[2, 3]")]),
        "[1, true, [2, 3]]"
    );
    assert_eq!(tuple_string(&vec![String::new(), String::new()]), "[, ]");
}

#[test]
fn value_messages_of_error_codes() {
    assert_eq!(error_message(7), "Operation with invalid argument(s)");
    assert_eq!(error_message(8), "Operation caused arithmetic overflow");
    assert_eq!(error_message(9), "An error occurred 9");
    assert_eq!(error_message(0), "An error occurred 0");
    assert_eq!(error_message(-3), "An error occurred -3");
}
