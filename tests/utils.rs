use gridish::constants::_10KM;
use gridish::utils::{digits, trim_string};
use gridish::{Error, Precision};

#[test]
fn parse_valid_digits() {
    assert_eq!(digits(""), Ok((0, 0, Precision::_100Km)));
    assert_eq!(digits("12"), Ok((_10KM, 20_000, Precision::_10Km)));
    assert_eq!(digits("1234"), Ok((12_000, 34_000, Precision::_1Km)));
    assert_eq!(digits("123456"), Ok((12_300, 45_600, Precision::_100M)));
    assert_eq!(digits("12345678"), Ok((12_340, 56_780, Precision::_10M)));
    assert_eq!(digits("0123456789"), Ok((01_234, 56_789, Precision::_1M)));
}

#[test]
fn reject_invalid_digits() {
    // Reject wrong length
    assert_eq!(
        digits("123"),
        Err(Error::ParseError(
            "3 is not a valid number of digits. Supported values: 0, 2, 4, 6, 8, 10."
                .to_string()
        ))
    );

    // Reject non numbers
    assert_eq!(
        digits("ab"),
        Err(Error::ParseError(
            "ParseIntError { kind: InvalidDigit }".to_string()
        ))
    )
}

#[test]
fn trim_strings() {
    assert_eq!(trim_string("so 14 5"), "SO145");
    assert_eq!(trim_string("So 222"), "SO222");
    assert_eq!(trim_string(" @ @ "), "@@");
}

#[test]
fn digit_counts_are_legal_exactly_when_even_up_to_ten() {
    let all = "012345678901";
    for len in 0..=12 {
        let text = &all[..len];
        let result = digits(text);
        if len % 2 == 0 && len <= 10 {
            assert!(result.is_ok(), "length {len}");
        } else {
            assert_eq!(
                result,
                Err(Error::ParseError(format!(
                    "{len} is not a valid number of digits. Supported values: 0, 2, 4, 6, 8, 10."
                )))
            );
        }
    }
}

#[test]
fn counts_bytes_not_characters() {
    // 'é' takes two bytes.
    assert_eq!(
        digits("é1"),
        Err(Error::ParseError(
            "3 is not a valid number of digits. Supported values: 0, 2, 4, 6, 8, 10."
                .to_string()
        ))
    );
    assert_eq!(
        digits("éé"),
        Err(Error::ParseError(
            "ParseIntError { kind: InvalidDigit }".to_string()
        ))
    );
}

#[test]
fn halves_read_like_unsigned_integers() {
    // A leading plus sign is accepted, as `str::parse::<u32>` does.
    assert_eq!(digits("+1+2"), Ok((1_000, 2_000, Precision::_1Km)));
    assert_eq!(
        digits("-1-2"),
        Err(Error::ParseError(
            "ParseIntError { kind: InvalidDigit }".to_string()
        ))
    );
    assert_eq!(
        digits("1+"),
        Err(Error::ParseError(
            "ParseIntError { kind: InvalidDigit }".to_string()
        ))
    );
    assert_eq!(
        digits("99999 9999"),
        Err(Error::ParseError(
            "ParseIntError { kind: InvalidDigit }".to_string()
        ))
    );
    assert_eq!(digits("9999999999"), Ok((99_999, 99_999, Precision::_1M)));
}

#[test]
fn trims_every_ascii_whitespace() {
    assert_eq!(trim_string("\tn\ns\r 1\x0C2"), "NS12");
    assert_eq!(trim_string(""), "");
    // Vertical tab is not ASCII whitespace to Rust.
    assert_eq!(trim_string("a\x0Bb"), "A\x0BB");
    assert_eq!(trim_string("é"), "é");
}
