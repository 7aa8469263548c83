use vercmp::ParseError;
use vercmp::Version;
use vercmp::digits::u64_to_dec_string;
use vercmp::parse_u32;

#[test]
fn string_test() {
    let version = "3.0.0";
    assert_eq!(version, "3.0.0");
}

#[test]
fn version_struct_test() {
    let ver = Version::from_str("3.0.0");
    assert_eq!(ver, Ok(Version { major: 3, minor: 0, patch: 0 }));
}

#[test]
fn invalid_test() {
    let invalids = ["nope", "1.0.x", "1.x.0", "x.0.1", "x.x.x"];

    for invalid in &invalids {
        let invv: Result<Version, ParseError> = Version::from_str(invalid);
        assert!(invv.is_err());
    }
}

#[test]
fn two_digit_test() {
    let invv: Result<Version, ParseError> = Version::from_str("7.2");
    assert!(invv.is_ok());

    let ver = Version::from_str("7.2");
    assert_eq!(ver, Ok(Version { major: 7, minor: 2, patch: 0 }));
    println!("Results: {:?}", ver);
}

#[test]
fn one_digit_test() {
    let invv: Result<Version, ParseError> = Version::from_str("7");
    assert!(invv.is_ok());

    let ver = Version::from_str("7");
    assert_eq!(ver, Ok(Version { major: 7, minor: 0, patch: 0 }));
    println!("Results: {:?}", ver);
}

#[test]
fn three_components() {
    assert_eq!(Version::from_str("7.2.9"), Ok(Version { major: 7, minor: 2, patch: 9 }));
}

#[test]
fn two_components_default_patch() {
    assert_eq!(Version::from_str("1.0"), Ok(Version { major: 1, minor: 0, patch: 0 }));
}

#[test]
fn empty_string_is_one_empty_component() {
    assert_eq!(Version::from_str(""), Err(ParseError::InvalidComponent(String::new())));
}

#[test]
fn too_many_components() {
    assert_eq!(Version::from_str("1.2.3.4"), Err(ParseError::ComponentCount(4)));
    assert_eq!(Version::from_str("1.2.3.4.5"), Err(ParseError::ComponentCount(5)));
}

#[test]
fn invalid_component_is_reported_verbatim() {
    assert_eq!(Version::from_str("1.x.0"), Err(ParseError::InvalidComponent("x".to_string())));
    assert_eq!(Version::from_str("x.0.1"), Err(ParseError::InvalidComponent("x".to_string())));
    assert_eq!(Version::from_str("nope"), Err(ParseError::InvalidComponent("nope".to_string())));
    assert_eq!(Version::from_str("1..3"), Err(ParseError::InvalidComponent(String::new())));
}

#[test]
fn first_invalid_component_wins() {
    assert_eq!(Version::from_str("a.b.c"), Err(ParseError::InvalidComponent("a".to_string())));
    assert_eq!(Version::from_str("1.b.c"), Err(ParseError::InvalidComponent("b".to_string())));
    assert_eq!(Version::from_str("1.2.c"), Err(ParseError::InvalidComponent("c".to_string())));
}

#[test]
fn no_sign_no_whitespace() {
    assert_eq!(Version::from_str("+7"), Err(ParseError::InvalidComponent("+7".to_string())));
    assert_eq!(Version::from_str(" 7"), Err(ParseError::InvalidComponent(" 7".to_string())));
    assert_eq!(Version::from_str("7 .2"), Err(ParseError::InvalidComponent("7 ".to_string())));
}

#[test]
fn leading_zeros_are_accepted() {
    assert_eq!(Version::from_str("007.08.009"), Ok(Version { major: 7, minor: 8, patch: 9 }));
}

#[test]
fn component_bounds() {
    assert_eq!(
        Version::from_str("4294967295.0.0"),
        Ok(Version { major: 4294967295, minor: 0, patch: 0 })
    );
    assert_eq!(
        Version::from_str("4294967296.0.0"),
        Err(ParseError::InvalidComponent("4294967296".to_string()))
    );
}

#[test]
fn non_ascii_component_is_invalid() {
    assert_eq!(
        Version::from_str("1.\u{03bb}.2"),
        Err(ParseError::InvalidComponent("\u{03bb}".to_string()))
    );
}

#[test]
fn render_is_canonical() {
    assert_eq!(Version { major: 1, minor: 2, patch: 3 }.render(), "1.2.3");
    assert_eq!(Version { major: 0, minor: 0, patch: 0 }.render(), "0.0.0");
    assert_eq!(Version { major: 4294967295, minor: 10, patch: 307 }.render(), "4294967295.10.307");
}

#[test]
fn render_then_parse_round_trip() {
    let triples = [(0u32, 0u32, 0u32), (7, 2, 9), (1, 0, 0), (4294967295, 10, 307)];
    for (major, minor, patch) in triples {
        let rendered = Version { major, minor, patch }.render();
        assert_eq!(Version::from_str(&rendered), Ok(Version { major, minor, patch }));
    }
}

#[test]
fn error_messages() {
    let count_err = Version::from_str("1.2.3.4").unwrap_err();
    assert_eq!(count_err.message(), "Invalid version format: expected 3 components, got 4.");
    let component_err = Version::from_str("x.0.1").unwrap_err();
    assert_eq!(component_err.message(), "Invalid version format: expected integer, got 'x'.");
}

#[test]
fn decimal_rendering_round_trips() {
    assert_eq!(u64_to_dec_string(0), "0");
    assert_eq!(u64_to_dec_string(10), "10");
    assert_eq!(u64_to_dec_string(4294967295), "4294967295");
    for n in [0u64, 1, 9, 10, 99, 100, 4294967295] {
        assert_eq!(parse_u32(&u64_to_dec_string(n)), Some(n as u32));
    }
    assert_eq!(parse_u32(&u64_to_dec_string(4294967296)), None);
}

#[test]
fn parse_u32_accepts_plain_numerals_only() {
    assert_eq!(parse_u32("0"), Some(0));
    assert_eq!(parse_u32("007"), Some(7));
    assert_eq!(parse_u32("4294967295"), Some(4294967295));
    assert_eq!(parse_u32("4294967296"), None);
    assert_eq!(parse_u32(""), None);
    assert_eq!(parse_u32("+7"), None);
    assert_eq!(parse_u32("-7"), None);
    assert_eq!(parse_u32("1 2"), None);
}
