use rover_sim::parser::ErrorKind;

#[test]
fn unknown_orientation_letter_is_an_error() {
    let errors = rover_sim::parser::parse_input("4 8\n(2, 3, Q) LF").unwrap_err();
    assert!(!errors.is_empty());
    assert_eq!(2, errors[0].line);
    assert_eq!(ErrorKind::ExpectedOrientation, errors[0].kind);
}

#[test]
fn out_of_range_integer_is_an_error() {
    let errors = rover_sim::parser::parse_input("4 8\n(2147483648, 3, E) LF").unwrap_err();
    assert!(!errors.is_empty());
    assert_eq!(2, errors[0].line);
    assert_eq!(ErrorKind::NumberOutOfRange, errors[0].kind);

    let err = rover_sim::parser::parse_grid("99999999999 8").unwrap_err();
    assert_eq!(ErrorKind::NumberOutOfRange, err.kind);

    let err = rover_sim::parser::parse_grid("4 -2147483649").unwrap_err();
    assert_eq!(ErrorKind::NumberOutOfRange, err.kind);
}

#[test]
fn malformed_entry_fails_whole_parse_despite_valid_rest() {
    let errors = rover_sim::parser::parse_input("4 8\n(2, 3, Q) LF\n(0, 2, N) FF").unwrap_err();
    assert!(!errors.is_empty());
    assert_eq!(2, errors[0].line);
}

#[test]
fn two_malformed_entries_yield_two_errors() {
    let errors =
        rover_sim::parser::parse_input("4 8\n(2, 3, Q) LF\n(x, 3, E) F\n(0, 2, N) FF").unwrap_err();
    assert!(errors.len() >= 2);
    assert_eq!(2, errors[0].line);
    assert_eq!(3, errors[1].line);
}

#[test]
fn bad_grid_and_bad_entry_are_both_reported() {
    let errors = rover_sim::parser::parse_input("4 x\n(2, 3, Q) LF").unwrap_err();
    assert!(errors.len() >= 2);
    assert_eq!(1, errors[0].line);
    assert_eq!(2, errors[1].line);
}

#[test]
fn expected_digit_error() {
    let err = rover_sim::parser::parse_grid("a 8").unwrap_err();
    assert_eq!(ErrorKind::ExpectedDigit, err.kind);
    assert_eq!(1, err.line);
    assert_eq!(0, err.col);
}

#[test]
fn expected_space_error() {
    let err = rover_sim::parser::parse_grid("4\t8").unwrap_err();
    assert_eq!(ErrorKind::ExpectedSpace, err.kind);
    assert_eq!(1, err.col);
}

#[test]
fn trailing_characters_error() {
    let err = rover_sim::parser::parse_grid("4 8 9").unwrap_err();
    assert_eq!(ErrorKind::TrailingCharacters, err.kind);
    assert_eq!(4, err.col);

    let err = rover_sim::parser::parse_rover("(2, 3, E) x").unwrap_err();
    assert_eq!(ErrorKind::TrailingCharacters, err.kind);
    assert_eq!(10, err.col);
}

#[test]
fn expected_open_paren_error() {
    let err = rover_sim::parser::parse_rover("2, 3, E)").unwrap_err();
    assert_eq!(ErrorKind::ExpectedOpenParen, err.kind);
    assert_eq!(0, err.col);
}

#[test]
fn expected_comma_error() {
    let err = rover_sim::parser::parse_rover("(2 3, E)").unwrap_err();
    assert_eq!(ErrorKind::ExpectedComma, err.kind);
    assert_eq!(3, err.col);
}

#[test]
fn expected_close_paren_error() {
    let err = rover_sim::parser::parse_rover("(2, 3, E").unwrap_err();
    assert_eq!(ErrorKind::ExpectedCloseParen, err.kind);
    assert_eq!(8, err.col);
}

#[test]
fn unknown_command_error() {
    let err = rover_sim::parser::parse_commands("LFX").unwrap_err();
    assert_eq!(ErrorKind::UnknownCommand, err.kind);
    assert_eq!(2, err.col);

    let errors = rover_sim::parser::parse_input("4 8\n(2, 3, E) LFX").unwrap_err();
    assert_eq!(ErrorKind::UnknownCommand, errors[0].kind);
    assert_eq!(2, errors[0].line);
}

#[test]
fn command_letters_take_no_separators() {
    assert!(rover_sim::parser::parse_commands("LF RFF").is_err());
}

#[test]
fn error_messages_describe_the_problem() {
    assert_eq!("expected a digit", ErrorKind::ExpectedDigit.message());
    assert_eq!(
        "number out of range for a 32-bit signed integer",
        ErrorKind::NumberOutOfRange.message()
    );
    assert!(!ErrorKind::ExpectedOrientation.message().is_empty());
    assert!(!ErrorKind::UnknownCommand.message().is_empty());
}

#[test]
fn empty_input_is_an_error() {
    let errors = rover_sim::parser::parse_input("").unwrap_err();
    assert!(!errors.is_empty());
    assert_eq!(1, errors[0].line);
    assert_eq!(ErrorKind::ExpectedDigit, errors[0].kind);
}
