use tip5_cli::parse::parse_number;
use tip5_cli::parse::ParseErrorKind;
use tip5_cli::run::run;
use tip5_cli::run::CliError;
use tip5_cli::run::Mode;

fn strings(items: &[&str]) -> Vec<String> {
    items.iter().map(|s| s.to_string()).collect()
}

#[test]
fn decimal_hex_octal_agree() {
    // One value, three spellings.
    let v = parse_number("16909060").unwrap();
    assert_eq!(v, 16909060);
    assert_eq!(parse_number("0x01020304").unwrap(), v);
    assert_eq!(parse_number("0100401404").unwrap(), v);
}

#[test]
fn decimal_hex_octal_agree_small() {
    assert_eq!(parse_number("7").unwrap(), 7);
    assert_eq!(parse_number("0x07").unwrap(), 7);
    assert_eq!(parse_number("07").unwrap(), 7);
}

#[test]
fn largest_value_parses() {
    assert_eq!(parse_number("18446744073709551615").unwrap(), u64::MAX);
    assert_eq!(parse_number("0xffffffffffffffff").unwrap(), u64::MAX);
    assert_eq!(parse_number("01777777777777777777777").unwrap(), u64::MAX);
}

#[test]
fn overflow_is_rejected() {
    assert_eq!(
        parse_number("18446744073709551616"),
        Err(ParseErrorKind::Overflow)
    );
    assert_eq!(
        parse_number("0xffffffffffffffff00"),
        Err(ParseErrorKind::Overflow)
    );
    assert_eq!(
        parse_number("02000000000000000000000"),
        Err(ParseErrorKind::Overflow)
    );
}

#[test]
fn odd_hex_digit_count_fails() {
    assert_eq!(parse_number("0x1"), Err(ParseErrorKind::OddHexLength));
    assert_eq!(parse_number("0x123"), Err(ParseErrorKind::OddHexLength));
    assert_eq!(parse_number("0X1"), Err(ParseErrorKind::OddHexLength));
    assert_eq!(parse_number("0x01").unwrap(), 1);
}

#[test]
fn empty_digits_fail() {
    assert_eq!(parse_number(""), Err(ParseErrorKind::Empty));
    assert_eq!(parse_number("0"), Err(ParseErrorKind::Empty));
    assert_eq!(parse_number("0x"), Err(ParseErrorKind::Empty));
}

#[test]
fn invalid_digits_fail() {
    assert_eq!(parse_number("twelve"), Err(ParseErrorKind::InvalidDigit));
    assert_eq!(parse_number("08"), Err(ParseErrorKind::InvalidDigit));
    assert_eq!(parse_number("0xzz"), Err(ParseErrorKind::InvalidDigit));
    assert_eq!(parse_number("12a"), Err(ParseErrorKind::InvalidDigit));
    assert_eq!(parse_number("+"), Err(ParseErrorKind::InvalidDigit));
    assert_eq!(parse_number("-1"), Err(ParseErrorKind::InvalidDigit));
}

#[test]
fn plus_sign_is_accepted() {
    assert_eq!(parse_number("+5").unwrap(), 5);
    assert_eq!(parse_number("0x+123").unwrap(), 0x123);
}

#[test]
fn pair_mode_wrong_count_fails() {
    for inputs in [strings(&["1"]), strings(&["1", "2", "3"]), strings(&[])] {
        let n = inputs.len();
        match run(Mode::Pair, &inputs) {
            Err(CliError::Validation { mode, given }) => {
                assert_eq!(mode, Mode::Pair);
                assert_eq!(given, n);
            }
            other => panic!("expected a validation error, got {:?}", other),
        }
    }
}

#[test]
fn varlen_mode_too_few_inputs_fails() {
    for inputs in [strings(&[]), strings(&["1"])] {
        let n = inputs.len();
        match run(Mode::Varlen, &inputs) {
            Err(CliError::Validation { mode, given }) => {
                assert_eq!(mode, Mode::Varlen);
                assert_eq!(given, n);
            }
            other => panic!("expected a validation error, got {:?}", other),
        }
    }
}

#[test]
fn pair_scenario() {
    // inputs 0x01020304 and 5 are the field elements 16909060 and 5
    assert_eq!(parse_number("0x01020304").unwrap(), 16909060);
    assert_eq!(parse_number("5").unwrap(), 5);
    let out = run(Mode::Pair, &strings(&["0x01020304", "5"])).unwrap();
    let (header, digest_line) = out.split_once('\n').unwrap();
    assert_eq!(header, "Hash pair mode [0x01020304, 5]:");
    let digest = digest_line.strip_prefix("Result: ").unwrap();
    assert!(!digest.is_empty());
    // the digest is a hash, not an echo of the inputs
    assert_ne!(digest, "0x01020304");
    assert_ne!(digest, "5");
    assert_ne!(digest, "16909060");
}

#[test]
fn varlen_scenario() {
    let out = run(Mode::Varlen, &strings(&["1", "2", "3"])).unwrap();
    let (header, digest_line) = out.split_once('\n').unwrap();
    assert_eq!(header, "Hash varlen mode [1, 2, 3]:");
    let digest = digest_line.strip_prefix("Result: ").unwrap();
    assert!(!digest.is_empty());
    assert_ne!(digest, "1, 2, 3");
}

#[test]
fn hashing_is_deterministic() {
    let first = run(Mode::Pair, &strings(&["0x01020304", "5"])).unwrap();
    let second = run(Mode::Pair, &strings(&["0x01020304", "5"])).unwrap();
    assert_eq!(first, second);
    let third = run(Mode::Varlen, &strings(&["1", "2", "3"])).unwrap();
    let fourth = run(Mode::Varlen, &strings(&["1", "2", "3"])).unwrap();
    assert_eq!(third, fourth);
}

#[test]
fn pair_and_varlen_digests_differ_for_different_inputs() {
    // the digest part changes when the inputs change
    let a = run(Mode::Pair, &strings(&["1", "2"])).unwrap();
    let b = run(Mode::Pair, &strings(&["2", "1"])).unwrap();
    let digest_a = a.split_once('\n').unwrap().1;
    let digest_b = b.split_once('\n').unwrap().1;
    assert_ne!(digest_a, digest_b);
}

#[test]
fn equal_values_in_different_bases_hash_alike() {
    // the hash sees the parsed values, not the literal spellings
    let a = run(Mode::Varlen, &strings(&["16909060", "5"])).unwrap();
    let b = run(Mode::Varlen, &strings(&["0x01020304", "0x05"])).unwrap();
    let digest_a = a.split_once('\n').unwrap().1;
    let digest_b = b.split_once('\n').unwrap().1;
    assert_eq!(digest_a, digest_b);
}

#[test]
fn first_bad_literal_is_reported() {
    match run(Mode::Varlen, &strings(&["1", "0x1", "zzz"])) {
        Err(CliError::Parse { literal, kind }) => {
            assert_eq!(literal, "0x1");
            assert_eq!(kind, ParseErrorKind::OddHexLength);
        }
        other => panic!("expected a parse error, got {:?}", other),
    }
    match run(Mode::Pair, &strings(&["zzz", "1"])) {
        Err(CliError::Parse { literal, kind }) => {
            assert_eq!(literal, "zzz");
            assert_eq!(kind, ParseErrorKind::InvalidDigit);
        }
        other => panic!("expected a parse error, got {:?}", other),
    }
}

#[test]
fn error_messages() {
    let odd = CliError::Parse {
        literal: "0x1".to_string(),
        kind: ParseErrorKind::OddHexLength,
    };
    assert_eq!(odd.message(), "Hex string length must be even (full bytes)");
    let pair = CliError::Validation {
        mode: Mode::Pair,
        given: 3,
    };
    assert_eq!(pair.message(), "pair mode requires exactly 2 inputs");
    let varlen = CliError::Validation {
        mode: Mode::Varlen,
        given: 1,
    };
    assert_eq!(varlen.message(), "varlen mode requires at least 2 inputs");
    let empty = CliError::Parse {
        literal: "0x".to_string(),
        kind: ParseErrorKind::Empty,
    };
    assert_eq!(empty.message(), "cannot parse integer from empty string");
    let invalid = CliError::Parse {
        literal: "q".to_string(),
        kind: ParseErrorKind::InvalidDigit,
    };
    assert_eq!(invalid.message(), "invalid digit found in string");
    let overflow = CliError::Parse {
        literal: "18446744073709551616".to_string(),
        kind: ParseErrorKind::Overflow,
    };
    assert_eq!(
        overflow.message(),
        "number too large to fit in target type"
    );
}

#[test]
fn parser_matches_std_semantics() {
    // the literal grammar agrees with u64::from_str_radix on shared inputs
    for s in ["123", "900", "18446744073709551615", "42"] {
        assert_eq!(parse_number(s).unwrap(), s.parse::<u64>().unwrap());
    }
    for s in ["ff", "0102", "ABCDEF01"] {
        let prefixed = format!("0x{s}");
        assert_eq!(
            parse_number(&prefixed).unwrap(),
            u64::from_str_radix(s, 16).unwrap()
        );
    }
    for s in ["7", "644", "17777"] {
        let prefixed = format!("0{s}");
        assert_eq!(
            parse_number(&prefixed).unwrap(),
            u64::from_str_radix(s, 8).unwrap()
        );
    }
}
