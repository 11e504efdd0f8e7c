use passman::api::protocol_version;
use passman::data::{ComponentError, Version, VersionFromStringError};

#[test]
fn parts_are_packed_into_one_word() {
    let v = Version::from_parts(1, 2, 3);
    assert_eq!(v.encoded(), 0x0102_0003);
    assert_eq!(v.major(), 1);
    assert_eq!(v.minor(), 2);
    assert_eq!(v.revision(), 3);
    assert_eq!(Version::from_encoded(0xff10_abcd).major(), 0xff);
    assert_eq!(Version::from_encoded(0xff10_abcd).minor(), 0x10);
    assert_eq!(Version::from_encoded(0xff10_abcd).revision(), 0xabcd);
}

#[test]
fn version_renders_as_dotted_decimal() {
    assert_eq!(Version::from_parts(1, 2, 3).to_string(), "1.2.3");
    assert_eq!(Version::from_parts(255, 0, 65535).to_string(), "255.0.65535");
    assert_eq!(protocol_version().to_string(), "0.1.0");
}

#[test]
fn rendered_versions_parse_back() {
    for &(a, b, c) in &[(0u8, 0u8, 0u16), (0, 1, 0), (9, 10, 99), (100, 200, 1000), (255, 255, 65535)] {
        let v = Version::from_parts(a, b, c);
        let back = Version::from_str(&v.to_string()).unwrap();
        assert_eq!(back, v);
        assert_eq!(back.encoded(), v.encoded());
    }
}

#[test]
fn parse_accepts_plus_and_leading_zeros() {
    assert_eq!(Version::from_str("+1.02.003"), Ok(Version::from_parts(1, 2, 3)));
}

#[test]
fn parse_reports_missing_components() {
    assert_eq!(Version::from_str("1.2"), Err(VersionFromStringError::MissingComponents));
    assert_eq!(Version::from_str("1"), Err(VersionFromStringError::MissingComponents));
}

#[test]
fn parse_reports_extra_components() {
    assert_eq!(Version::from_str("1.2.3.4"), Err(VersionFromStringError::TooManyComponents));
    assert_eq!(Version::from_str("1.2.3."), Err(VersionFromStringError::TooManyComponents));
}

#[test]
fn parse_reports_bad_components() {
    assert_eq!(
        Version::from_str(""),
        Err(VersionFromStringError::InvalidComponent(ComponentError::Empty))
    );
    assert_eq!(
        Version::from_str("1..3"),
        Err(VersionFromStringError::InvalidComponent(ComponentError::Empty))
    );
    assert_eq!(
        Version::from_str("1.x.3"),
        Err(VersionFromStringError::InvalidComponent(ComponentError::InvalidDigit))
    );
    assert_eq!(
        Version::from_str("+.1.1"),
        Err(VersionFromStringError::InvalidComponent(ComponentError::InvalidDigit))
    );
    assert_eq!(
        Version::from_str("256.0.0"),
        Err(VersionFromStringError::InvalidComponent(ComponentError::PosOverflow))
    );
    assert_eq!(
        Version::from_str("0.0.65536"),
        Err(VersionFromStringError::InvalidComponent(ComponentError::PosOverflow))
    );
}

#[test]
fn first_bad_component_decides() {
    assert_eq!(
        Version::from_str("x"),
        Err(VersionFromStringError::InvalidComponent(ComponentError::InvalidDigit))
    );
    assert_eq!(
        Version::from_str("1.x"),
        Err(VersionFromStringError::InvalidComponent(ComponentError::InvalidDigit))
    );
}

#[test]
fn overflow_before_a_bad_character_is_reported_first() {
    assert_eq!(
        Version::from_str("300a.0.0"),
        Err(VersionFromStringError::InvalidComponent(ComponentError::PosOverflow))
    );
    assert_eq!(
        Version::from_str("30a0.0.0"),
        Err(VersionFromStringError::InvalidComponent(ComponentError::InvalidDigit))
    );
}

#[test]
fn wide_values_fit_only_in_32_bits() {
    assert_eq!(Version::from_u64(0x0102_0003), Some(Version::from_parts(1, 2, 3)));
    assert_eq!(Version::from_u64(u32::MAX as u64).map(|v| v.encoded()), Some(u32::MAX));
    assert_eq!(Version::from_u64(u32::MAX as u64 + 1), None);
}
