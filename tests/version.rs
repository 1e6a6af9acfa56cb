use meta::version::{parse_tag, push_decimal};
use meta::Version;

#[test]
fn version_parsing_test() {
    // Valid semantic version tag
    let result = Version::parse("v1.0.82");
    assert_eq!(
        Some(Version {
            major: 1,
            minor: 0,
            patch: 82
        }),
        result
    );

    // Git describe output with additional info (should fail)
    let result = Version::parse("v1.0.81-2-ge6a4f89");
    assert_eq!(None, result);

    // Commit hash (should fail)
    let result = Version::parse("c24f925");
    assert_eq!(None, result);
}

#[test]
fn parse_rejects_two_segments() {
    assert_eq!(None, Version::parse("v1.2"));
}

#[test]
fn parse_rejects_four_segments_and_empty_segments() {
    assert_eq!(None, Version::parse("v1.2.3.4"));
    assert_eq!(None, Version::parse("v1..23"));
    assert_eq!(None, Version::parse("v..123"));
    assert_eq!(None, Version::parse("v1.2."));
    assert_eq!(None, Version::parse(""));
    assert_eq!(None, Version::parse("v"));
}

#[test]
fn parse_rejects_surrounding_text() {
    assert_eq!(None, Version::parse(" v1.2.3"));
    assert_eq!(None, Version::parse("v1.2.3\n"));
    assert_eq!(None, Version::parse("V1.2.3"));
    assert_eq!(None, Version::parse("v+1.2.3"));
    assert_eq!(None, Version::parse("v1.-2.3"));
}

#[test]
fn parse_smallest_tag() {
    assert_eq!(
        Some(Version { major: 0, minor: 0, patch: 0 }),
        Version::parse("v0.0.0")
    );
}

#[test]
fn parse_accepts_leading_zeros() {
    assert_eq!(
        Some(Version { major: 1, minor: 2, patch: 3 }),
        Version::parse("v01.002.0003")
    );
    assert_eq!("1.2.3", Version::parse("v01.002.0003").unwrap().to_string());
}

#[test]
fn parse_largest_counter() {
    assert_eq!(
        Some(Version { major: u64::MAX, minor: 0, patch: 1 }),
        Version::parse("v18446744073709551615.0.1")
    );
    assert_eq!(None, Version::parse("v18446744073709551616.0.1"));
    assert_eq!(None, Version::parse("v1.0.99999999999999999999"));
}

#[test]
fn parse_bytes_directly() {
    assert_eq!(
        Some(Version { major: 7, minor: 8, patch: 9 }),
        parse_tag(b"v7.8.9")
    );
}

#[test]
fn version_to_string() {
    let v = Version { major: 1, minor: 0, patch: 82 };
    assert_eq!("1.0.82", v.to_string());
}

#[test]
fn version_round_trip() {
    for (a, b, c) in [(0u64, 0u64, 0u64), (1, 0, 82), (10, 200, 3000), (u64::MAX, 9, 10)] {
        let text = format!("v{}.{}.{}", a, b, c);
        let v = Version::parse(&text).unwrap();
        assert_eq!(Version { major: a, minor: b, patch: c }, v);
        assert_eq!(text[1..], v.to_string());
    }
}

#[test]
fn dotted_bytes_and_decimal() {
    let v = Version { major: 12, minor: 0, patch: 345 };
    assert_eq!(b"12.0.345".to_vec(), v.dotted_bytes());
    let mut out = b"x".to_vec();
    push_decimal(&mut out, 9050);
    assert_eq!(b"x9050".to_vec(), out);
}

#[test]
fn default_version_is_zero() {
    assert_eq!("0.0.0", Version::default().to_string());
}
