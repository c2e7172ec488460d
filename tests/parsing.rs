use set_game::input::{command_of, index_of, parse_user_input, InputError, Move};

#[test]
fn parse_user_input_deal() {
    assert_eq!(parse_user_input("deal\n").unwrap(), Move::RequestDeal);
}

#[test]
fn parse_user_input_help() {
    assert_eq!(parse_user_input("help\n").unwrap(), Move::RequestHelp);
}

#[test]
fn parse_user_input_exit() {
    assert_eq!(parse_user_input("exit\n").unwrap(), Move::RequestExit);
}

#[test]
fn parse_user_input_potential_set() {
    assert_eq!(parse_user_input("0 1 2\n").unwrap(), Move::IdentifySet(0, 1, 2))
}

#[test]
fn parse_user_input_potential_gibberish_returns_err() {
    assert!(parse_user_input("asdf\n").is_err())
}

#[test]
fn parse_user_input_potential_structured_gibberish_returns_err() {
    assert!(parse_user_input("0 1 qwer\n").is_err())
}

#[test]
fn gibberish_is_a_wrong_argument_count() {
    assert_eq!(parse_user_input("asdf\n"), Err(InputError::WrongArgumentCount(1)));
    assert_eq!(parse_user_input("0 1 2 3\n"), Err(InputError::WrongArgumentCount(4)));
    assert_eq!(parse_user_input(""), Err(InputError::WrongArgumentCount(1)));
}

#[test]
fn each_word_that_is_no_integer_is_named() {
    assert_eq!(parse_user_input("0 1 qwer\n"), Err(InputError::NotAnInteger(2)));
    assert_eq!(parse_user_input("0 x 2\n"), Err(InputError::NotAnInteger(1)));
    assert_eq!(parse_user_input("x y z\n"), Err(InputError::NotAnInteger(0)));
}

#[test]
fn double_spaces_make_empty_words() {
    assert_eq!(parse_user_input("0  1 2\n"), Err(InputError::WrongArgumentCount(4)));
    assert_eq!(parse_user_input("0 1  2\n"), Err(InputError::WrongArgumentCount(4)));
}

#[test]
fn whitespace_around_commands_and_numbers_is_ignored() {
    assert_eq!(parse_user_input("  help \t\n").unwrap(), Move::RequestHelp);
    assert_eq!(parse_user_input("3 10\t 11\r\n").unwrap(), Move::IdentifySet(3, 10, 11));
    assert_eq!(parse_user_input("+4 5 6").unwrap(), Move::IdentifySet(4, 5, 6));
}

#[test]
fn commands_are_case_sensitive() {
    assert!(parse_user_input("Deal\n").is_err());
    assert_eq!(command_of("deal"), Some(Move::RequestDeal));
    assert_eq!(command_of("exit"), Some(Move::RequestExit));
    assert_eq!(command_of("help"), Some(Move::RequestHelp));
    assert_eq!(command_of("deal\n"), None);
    assert_eq!(command_of("dea"), None);
}

#[test]
fn out_of_range_integers_are_not_integers() {
    assert_eq!(parse_user_input("0 1 99999999999\n"), Err(InputError::NotAnInteger(2)));
}

#[test]
fn negative_positions_are_rejected() {
    assert_eq!(parse_user_input("-1 0 1\n"), Err(InputError::NotAnInteger(0)));
    assert_eq!(parse_user_input("0 1 -2\n"), Err(InputError::NotAnInteger(2)));
    assert_eq!(parse_user_input("-0 1 2\n").unwrap(), Move::IdentifySet(0, 1, 2));
}

#[test]
fn index_of_reads_a_trimmed_word() {
    assert_eq!(index_of("12"), Some(12));
    assert_eq!(index_of("+7"), Some(7));
    assert_eq!(index_of("-0"), Some(0));
    assert_eq!(index_of("-2"), None);
    assert_eq!(index_of(" 12"), None);
    assert_eq!(index_of("12\n"), None);
    assert_eq!(index_of(""), None);
    assert_eq!(index_of("+"), None);
    assert_eq!(index_of("2147483647"), Some(2147483647));
    assert_eq!(index_of("2147483648"), None);
}
