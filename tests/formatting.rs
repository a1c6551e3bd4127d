use semver_core::{Identifier, Ordering, Version};

fn round_trip(text: &str) -> String {
    Version::parse(text).unwrap().to_string()
}

#[test]
fn parse_then_format_gives_the_text_back() {
    for text in [
        "0.0.0",
        "1.2.3",
        "18446744073709551615.10.987654321",
        "1.0.0-alpha",
        "1.0.0-alpha.1",
        "1.0.0-0.3.7",
        "1.0.0-x.7.z.92",
        "1.0.0-alpha+001",
        "1.0.0+20130313144700",
        "1.0.0-beta+exp.sha.5114f85",
        "1.0.0+21AF26D3----117B344092BD",
        "1.0.0-0A.is.legal",
    ] {
        assert_eq!(round_trip(text), text);
    }
}

#[test]
fn leading_v_is_not_written_back() {
    assert_eq!(round_trip("v0.1.0"), "0.1.0");
}

#[test]
fn format_of_built_version() {
    let v = Version {
        major: 4,
        minor: 0,
        patch: 12,
        prerelease: vec![Identifier::Alphanumeric(String::from("rc")), Identifier::Numeric(30)],
        build: vec![Identifier::Numeric(7)],
    };
    assert_eq!(v.to_string(), "4.0.12-rc.30+7");
}

#[test]
fn ordering_words() {
    assert_eq!(Ordering::LessThan.to_string(), "less than");
    assert_eq!(Ordering::GreaterThan.to_string(), "greater than");
    assert_eq!(Ordering::Equal.to_string(), "equal");
}
