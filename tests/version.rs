use std::cmp::Ordering;

use reduction_react::data::{PackageTag, VersionTag};
use reduction_react::Error;

#[test]
fn test_cmp() {
    let v1 = VersionTag::new(1, 2, 3);
    let v2 = VersionTag::new(1, 2, 3);
    let v3 = VersionTag::new(1, 2, 4);
    let v4 = VersionTag::new(1, 3, 3);
    let v5 = VersionTag::new(2, 2, 3);

    assert!(v1 == v2);
    assert!(v1 <= v2);
    assert!(v1 >= v2);
    assert!(v1 < v3);
    assert!(v1 < v4);
    assert!(v1 < v5);
}

#[test]
fn test_dump() {
    let package_tag = PackageTag::new(
        "1.2.3".try_into().unwrap(),
        "114514".to_string(),
        "1919810".to_string(),
    );
    println!(
        "version: {}\nhash: {}\ndownloadUrl: {}",
        package_tag.version.as_string(),
        package_tag.hash,
        package_tag.download_url
    );
    assert_eq!(package_tag.version, VersionTag::new(1, 2, 3));
}

#[test]
fn order_follows_numeric_components() {
    let a = VersionTag::new(1, 2, 3);
    let b = VersionTag::new(1, 2, 4);
    let c = VersionTag::new(1, 3, 0);
    let d = VersionTag::new(2, 0, 0);
    assert!(a < b && b < c && c < d);
    assert!(a < d);
    assert_eq!(b.partial_cmp(&a), Some(Ordering::Greater));
    assert_eq!(a.partial_cmp(&a), Some(Ordering::Equal));
    assert_eq!(a.cmp(&c), Ordering::Less);
    // numeric, not lexicographic
    assert!(VersionTag::new(1, 9, 0) < VersionTag::new(1, 10, 0));
    assert_eq!(VersionTag::new(0, 0, 9).max(VersionTag::new(0, 0, 10)), VersionTag::new(0, 0, 10));
}

#[test]
fn parse_and_print_round_trip() {
    for s in ["1.2.3", "0.0.0", "10.20.30", "4294967295.0.7"] {
        let v = VersionTag::parse(s).unwrap();
        assert_eq!(v.as_string(), s);
    }
    assert_eq!(VersionTag::parse("1.2.3").unwrap(), VersionTag::new(1, 2, 3));
    assert_eq!(VersionTag::new(7, 0, 12).as_string(), "7.0.12");
}

#[test]
fn parse_rejects_malformed_text() {
    for s in ["1.2", "1.2.x", "", "1.2.3.4", "1..3", ".1.2", "1.2.", "-1.2.3", "4294967296.0.0", " 1.2.3"] {
        assert!(
            matches!(VersionTag::parse(s), Err(Error::InvalidLocalVersionError)),
            "{} should not parse",
            s
        );
    }
    let r: Result<VersionTag, Error> = "1.2".try_into();
    assert!(matches!(r, Err(Error::InvalidLocalVersionError)));
}

#[test]
fn parse_accepts_leading_zeros_as_values() {
    assert_eq!(VersionTag::parse("01.002.0").unwrap(), VersionTag::new(1, 2, 0));
}

#[test]
fn printed_versions_parse_back() {
    for v in [
        VersionTag::new(0, 0, 0),
        VersionTag::new(1, 10, 100),
        VersionTag::new(u32::MAX, 9, u32::MAX),
    ] {
        assert_eq!(VersionTag::parse(&v.as_string()).unwrap(), v);
    }
    assert_eq!(VersionTag::new(u32::MAX, 0, 1).as_string(), "4294967295.0.1");
}

#[test]
fn parse_accepts_leading_plus_on_components() {
    assert_eq!(VersionTag::parse("+1.2.3").unwrap(), VersionTag::new(1, 2, 3));
    assert_eq!(VersionTag::parse("1.+2.+03").unwrap(), VersionTag::new(1, 2, 3));
    for s in ["+.1.2", "++1.2.3", "1+.2.3", "1.2.+", "+-1.2.3"] {
        assert!(
            matches!(VersionTag::parse(s), Err(Error::InvalidLocalVersionError)),
            "{} should not parse",
            s
        );
    }
}
