use intparse::parser::parse_int;
use intparse::parser::ParseIntResult;

#[test]
fn should_parse_zero() {
    // Given
    let str = "0";

    // When
    let result = parse_int(str);

    // Then
    assert_eq!(result, ParseIntResult::Success(0));
}

#[test]
fn should_detect_invalid_chars() {
    // Given
    let str = "1o1";

    // When
    let result = parse_int(str);

    // Then
    assert!(matches!(result, ParseIntResult::Failure { .. }));
    if let ParseIntResult::Failure {
        position: pos,
        character: char,
    } = result
    {
        assert_eq!(pos, 1);
        assert_eq!(char, 'o');
    }
}

#[test]
fn should_detect_double_minus() {
    // Given
    let str = "--1";

    // When
    let result = parse_int(str);

    // Then
    assert!(matches!(result, ParseIntResult::Failure { .. }));
    if let ParseIntResult::Failure {
        position: pos,
        character: char,
    } = result
    {
        assert_eq!(pos, 1);
        assert_eq!(char, '-');
    }
}

#[test]
fn should_parse_positive_integer() {
    assert_eq!(parse_int("1"), ParseIntResult::Success(1));
}

#[test]
fn should_parse_negative_integer() {
    assert_eq!(parse_int("-1"), ParseIntResult::Success(-1));
}

#[test]
fn should_parse_max_int() {
    let str = i32::MAX.to_string();
    assert_eq!(parse_int(&str), ParseIntResult::Success(i32::MAX));
}

#[test]
fn should_parse_min_int() {
    let str = i32::MIN.to_string();
    assert_eq!(parse_int(&str), ParseIntResult::Success(i32::MIN));
}

#[test]
fn should_parse_arbitrary_integer() {
    let test_values = [-100, 0, 100];
    for value in test_values {
        let str = value.to_string();
        assert_eq!(parse_int(&str), ParseIntResult::Success(value));
    }
}

#[test]
fn empty_input_fails_at_start() {
    assert_eq!(
        parse_int(""),
        ParseIntResult::Failure {
            position: 0,
            character: '\0'
        }
    );
}

#[test]
fn lone_minus_fails_at_end_of_input() {
    assert_eq!(
        parse_int("-"),
        ParseIntResult::Failure {
            position: 1,
            character: '\0'
        }
    );
}

#[test]
fn leading_zeros_are_accepted() {
    assert_eq!(parse_int("007"), ParseIntResult::Success(7));
    assert_eq!(parse_int("-007"), ParseIntResult::Success(-7));
    assert_eq!(parse_int("000"), ParseIntResult::Success(0));
}

#[test]
fn non_digit_at_start_fails_at_position_zero() {
    assert_eq!(
        parse_int("a1"),
        ParseIntResult::Failure {
            position: 0,
            character: 'a'
        }
    );
    assert_eq!(
        parse_int("+5"),
        ParseIntResult::Failure {
            position: 0,
            character: '+'
        }
    );
}

#[test]
fn non_digit_after_sign_reports_absolute_position() {
    assert_eq!(
        parse_int("-1x2"),
        ParseIntResult::Failure {
            position: 2,
            character: 'x'
        }
    );
}

#[test]
fn double_minus_wins_over_later_non_digit() {
    assert_eq!(
        parse_int("--a"),
        ParseIntResult::Failure {
            position: 1,
            character: '-'
        }
    );
}

#[test]
fn one_past_max_fails() {
    assert_eq!(
        parse_int("2147483648"),
        ParseIntResult::Failure {
            position: 0,
            character: '0'
        }
    );
}

#[test]
fn one_past_min_fails() {
    assert_eq!(
        parse_int("-2147483649"),
        ParseIntResult::Failure {
            position: 0,
            character: '0'
        }
    );
}

#[test]
fn huge_magnitudes_fail_without_wraparound() {
    assert!(matches!(
        parse_int("99999999999999999999999999"),
        ParseIntResult::Failure { .. }
    ));
    assert!(matches!(
        parse_int("-99999999999999999999999999"),
        ParseIntResult::Failure { .. }
    ));
    // twice around the u32 range would land on 18, were wraparound silent
    assert!(matches!(
        parse_int("8589934610"),
        ParseIntResult::Failure { .. }
    ));
}

#[test]
fn non_digit_is_reported_even_past_an_overflowing_prefix() {
    assert_eq!(
        parse_int("99999999999999999999x"),
        ParseIntResult::Failure {
            position: 20,
            character: 'x'
        }
    );
}

#[test]
fn minus_zero_parses_to_zero() {
    assert_eq!(parse_int("-0"), ParseIntResult::Success(0));
}
