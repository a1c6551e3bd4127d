use semver_core::{Identifier, ParseError, Version};

fn parse_err(text: &str) -> ParseError {
    Version::parse(text).unwrap_err()
}

#[test]
fn leading_zero_in_core_is_rejected() {
    assert_eq!(parse_err("1.02.0"), ParseError::LeadingZero);
    assert_eq!(parse_err("01.0.0"), ParseError::LeadingZero);
    assert_eq!(parse_err("1.0.00"), ParseError::LeadingZero);
}

#[test]
fn leading_zero_in_numeric_prerelease_is_rejected() {
    assert_eq!(parse_err("1.0.0-01"), ParseError::LeadingZero);
    assert_eq!(parse_err("1.0.0-alpha.007"), ParseError::LeadingZero);
}

#[test]
fn malformed_texts_fail() {
    assert!(Version::parse("1.0").is_err());
    assert!(Version::parse("1.0.0-").is_err());
    assert!(Version::parse("1.0.0..1").is_err());
    assert!(Version::parse("01.0.0").is_err());
}

#[test]
fn leading_v_is_stripped_and_build_keeps_zeros() {
    let v = Version::parse("v1.2.3-rc.1+001").unwrap();
    assert_eq!(v.to_string(), "1.2.3-rc.1+001");
    assert_eq!((v.major, v.minor, v.patch), (1, 2, 3));
    assert_eq!(v.prerelease.len(), 2);
    assert!(matches!(&v.prerelease[0], Identifier::Alphanumeric(t) if t == "rc"));
    assert!(matches!(&v.prerelease[1], Identifier::Numeric(1)));
    assert_eq!(v.build.len(), 1);
    assert!(matches!(&v.build[0], Identifier::Alphanumeric(t) if t == "001"));
}

#[test]
fn plain_core() {
    let v = Version::parse("10.20.30").unwrap();
    assert_eq!((v.major, v.minor, v.patch), (10, 20, 30));
    assert!(v.prerelease.is_empty());
    assert!(v.build.is_empty());
}

#[test]
fn zero_components() {
    let v = Version::parse("0.0.0-0").unwrap();
    assert_eq!((v.major, v.minor, v.patch), (0, 0, 0));
    assert!(matches!(&v.prerelease[0], Identifier::Numeric(0)));
}

#[test]
fn largest_numbers_fit() {
    let v = Version::parse("18446744073709551615.0.0-18446744073709551615").unwrap();
    assert_eq!(v.major, u64::MAX);
    assert!(matches!(&v.prerelease[0], Identifier::Numeric(n) if *n == u64::MAX));
}

#[test]
fn numbers_past_64_bits_overflow() {
    assert_eq!(parse_err("18446744073709551616.0.0"), ParseError::NumericOverflow);
    assert_eq!(parse_err("1.99999999999999999999999.0"), ParseError::NumericOverflow);
    assert_eq!(parse_err("1.0.0-18446744073709551616"), ParseError::NumericOverflow);
}

#[test]
fn build_digits_past_64_bits_are_kept_as_text() {
    let v = Version::parse("1.0.0+18446744073709551616").unwrap();
    assert!(matches!(&v.build[0], Identifier::Alphanumeric(t) if t == "18446744073709551616"));
    assert_eq!(v.to_string(), "1.0.0+18446744073709551616");
}

#[test]
fn numeric_build_identifier() {
    let v = Version::parse("1.0.0+5.exp-sha.0").unwrap();
    assert_eq!(v.build.len(), 3);
    assert!(matches!(&v.build[0], Identifier::Numeric(5)));
    assert!(matches!(&v.build[1], Identifier::Alphanumeric(t) if t == "exp-sha"));
    assert!(matches!(&v.build[2], Identifier::Numeric(0)));
}

#[test]
fn hyphens_inside_identifiers() {
    let v = Version::parse("1.0.0-x-y-z.--+b-1").unwrap();
    assert!(matches!(&v.prerelease[0], Identifier::Alphanumeric(t) if t == "x-y-z"));
    assert!(matches!(&v.prerelease[1], Identifier::Alphanumeric(t) if t == "--"));
    assert!(matches!(&v.build[0], Identifier::Alphanumeric(t) if t == "b-1"));
}

#[test]
fn unexpected_end_of_input() {
    assert_eq!(parse_err(""), ParseError::UnexpectedEndOfInput);
    assert_eq!(parse_err("v"), ParseError::UnexpectedEndOfInput);
    assert_eq!(parse_err("1.0"), ParseError::UnexpectedEndOfInput);
    assert_eq!(parse_err("1."), ParseError::UnexpectedEndOfInput);
    assert_eq!(parse_err("1.0.0-"), ParseError::UnexpectedEndOfInput);
    assert_eq!(parse_err("1.0.0-a."), ParseError::UnexpectedEndOfInput);
    assert_eq!(parse_err("1.0.0+"), ParseError::UnexpectedEndOfInput);
}

#[test]
fn invalid_character() {
    assert_eq!(parse_err("1.x.0"), ParseError::InvalidCharacter);
    assert_eq!(parse_err("V1.0.0"), ParseError::InvalidCharacter);
    assert_eq!(parse_err("1-0.0"), ParseError::InvalidCharacter);
    assert_eq!(parse_err("1..0"), ParseError::InvalidCharacter);
    assert_eq!(parse_err("1.0.0-a!b"), ParseError::InvalidCharacter);
    assert_eq!(parse_err("1.0.0-é"), ParseError::InvalidCharacter);
    assert_eq!(parse_err("1.0.0+a_b"), ParseError::InvalidCharacter);
}

#[test]
fn empty_identifier() {
    assert_eq!(parse_err("1.0.0-a..b"), ParseError::EmptyIdentifier);
    assert_eq!(parse_err("1.0.0-.a"), ParseError::EmptyIdentifier);
    assert_eq!(parse_err("1.0.0-+b"), ParseError::EmptyIdentifier);
    assert_eq!(parse_err("1.0.0+a..b"), ParseError::EmptyIdentifier);
}

#[test]
fn extraneous_input() {
    assert_eq!(parse_err("1.0.0..1"), ParseError::ExtraneousInput);
    assert_eq!(parse_err("1.0.0.1"), ParseError::ExtraneousInput);
    assert_eq!(parse_err("1.0.0x"), ParseError::ExtraneousInput);
    assert_eq!(parse_err("1.0.0 "), ParseError::ExtraneousInput);
}

#[test]
fn misordered_section() {
    assert_eq!(parse_err("1.0.0+a+b"), ParseError::MisorderedSection);
    assert_eq!(parse_err("1.0.0-a+b+c"), ParseError::MisorderedSection);
    assert_eq!(parse_err("1.0.0+a+"), ParseError::MisorderedSection);
    assert_eq!(parse_err("1.0.0-a+b!"), ParseError::InvalidCharacter);
}

#[test]
fn build_before_prerelease_is_build_text() {
    let v = Version::parse("1.0.0+build-rc").unwrap();
    assert!(v.prerelease.is_empty());
    assert!(matches!(&v.build[0], Identifier::Alphanumeric(t) if t == "build-rc"));
}
