use reseda_server::strings::{i128_to_dec, parse_i128, str_eq, trim_ws, u128_to_dec, u8_to_dec};

#[test]
fn renders_small_numbers() {
    assert_eq!(u128_to_dec(0).as_str(), "0");
    assert_eq!(u128_to_dec(7).as_str(), "7");
    assert_eq!(u128_to_dec(10).as_str(), "10");
    assert_eq!(u128_to_dec(123456).as_str(), "123456");
    assert_eq!(u8_to_dec(255).as_str(), "255");
}

#[test]
fn renders_signed_numbers() {
    assert_eq!(i128_to_dec(0).as_str(), "0");
    assert_eq!(i128_to_dec(-1).as_str(), "-1");
    assert_eq!(i128_to_dec(5000000000).as_str(), "5000000000");
    assert_eq!(
        i128_to_dec(i128::MAX).as_str(),
        "170141183460469231731687303715884105727"
    );
    assert_eq!(
        i128_to_dec(i128::MIN).as_str(),
        "-170141183460469231731687303715884105728"
    );
}

#[test]
fn parses_plain_integers() {
    assert_eq!(parse_i128("123"), Some(123));
    assert_eq!(parse_i128("0"), Some(0));
    assert_eq!(parse_i128("-5"), Some(-5));
    assert_eq!(parse_i128("+7"), Some(7));
}

#[test]
fn parses_extremes_and_rejects_overflow() {
    assert_eq!(
        parse_i128("170141183460469231731687303715884105727"),
        Some(i128::MAX)
    );
    assert_eq!(parse_i128("170141183460469231731687303715884105728"), None);
    assert_eq!(
        parse_i128("-170141183460469231731687303715884105728"),
        Some(i128::MIN)
    );
    assert_eq!(parse_i128("-170141183460469231731687303715884105729"), None);
}

#[test]
fn rejects_malformed_integers() {
    assert_eq!(parse_i128(""), None);
    assert_eq!(parse_i128("-"), None);
    assert_eq!(parse_i128("+"), None);
    assert_eq!(parse_i128("12a"), None);
    assert_eq!(parse_i128(" 12"), None);
    assert_eq!(parse_i128("1 2"), None);
}

#[test]
fn trims_ascii_whitespace() {
    assert_eq!(trim_ws("  key\n").as_str(), "key");
    assert_eq!(trim_ws("\t\r\n ").as_str(), "");
    assert_eq!(trim_ws("no-trim").as_str(), "no-trim");
    assert_eq!(trim_ws("a b").as_str(), "a b");
}

#[test]
fn compares_strings_by_characters() {
    assert!(str_eq("open", "open"));
    assert!(!str_eq("open", "close"));
    assert!(!str_eq("open", "open "));
}
