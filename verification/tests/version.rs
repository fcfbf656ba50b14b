//! Versions and what is made of them.

use proxypilot::update::version::{decide, format_version, parse_tag, Decision};

#[test]
fn parses_a_plain_tag() {
    let v = parse_tag("v1.2.3").expect("должен разобраться");
    assert_eq!(v.major, 1);
    assert_eq!(v.minor, 2);
    assert_eq!(v.patch, 3);
    assert!(!v.is_prerelease());
}

#[test]
fn parses_a_tag_without_the_leading_v() {
    let v = parse_tag("1.2.3").expect("должен разобраться");
    assert_eq!((v.major, v.minor, v.patch), (1, 2, 3));
}

#[test]
fn parses_a_prerelease_suffix() {
    let v = parse_tag("v0.2.0-rc.1").expect("должен разобраться");
    assert_eq!((v.major, v.minor, v.patch), (0, 2, 0));
    assert!(v.is_prerelease());
    assert_eq!(v.pre.as_deref(), Some("rc.1"));
}

#[test]
fn rejects_a_dangling_hyphen() {
    assert!(parse_tag("v1.2.3-").is_none());
}

#[test]
fn rejects_extra_numeric_segments() {
    assert!(parse_tag("v1.2.3.4").is_none());
}

#[test]
fn rejects_too_few_numeric_segments() {
    assert!(parse_tag("v1.2").is_none());
}

#[test]
fn rejects_a_tag_that_is_not_a_version_at_all() {
    for tag in ["latest", "release-notes", "win-v1.2.3", ""] {
        assert!(
            parse_tag(tag).is_none(),
            "«{tag}» не должен разбираться как версия"
        );
    }
}

#[test]
fn rejects_non_numeric_segments() {
    assert!(parse_tag("v1.x.3").is_none());
}

#[test]
fn a_newer_published_version_is_available() {
    assert_eq!(
        decide("1.2.3", "v1.3.0"),
        Decision::Available(parse_tag("v1.3.0").unwrap())
    );
}

#[test]
fn an_equal_published_version_is_up_to_date() {
    assert_eq!(decide("1.2.3", "v1.2.3"), Decision::UpToDate);
}

#[test]
fn a_current_version_newer_than_published_is_reported_as_such() {
    assert_eq!(decide("2.0.0", "v1.9.9"), Decision::CurrentIsNewer);
}

#[test]
fn a_prerelease_tag_is_never_offered_even_when_numerically_newer() {
    let d = decide("1.2.3", "v1.3.0-rc.1");
    assert!(matches!(d, Decision::PublishedIsPrerelease(_)), "{d:?}");
}

#[test]
fn a_prerelease_tag_numerically_older_is_still_reported_as_prerelease() {
    let d = decide("2.0.0", "v1.3.0-rc.1");
    assert!(matches!(d, Decision::PublishedIsPrerelease(_)), "{d:?}");
}

#[test]
fn a_malformed_tag_is_unrecognized_not_treated_as_no_update() {
    assert_eq!(decide("1.2.3", "v1.2"), Decision::Unrecognized);
    assert_eq!(decide("1.2.3", "1.2.3.4"), Decision::Unrecognized);
}

#[test]
fn a_tag_that_is_not_a_version_at_all_is_unrecognized() {
    assert_eq!(decide("1.2.3", "latest"), Decision::Unrecognized);
    assert_eq!(decide("1.2.3", ""), Decision::Unrecognized);
}

#[test]
fn a_broken_current_version_is_unrecognized_rather_than_panicking() {
    assert_eq!(decide("не-версия", "v1.2.3"), Decision::Unrecognized);
}

#[test]
fn ordering_treats_a_full_release_as_newer_than_its_own_prerelease() {
    let release = parse_tag("v1.2.3").unwrap();
    let prerelease = parse_tag("v1.2.3-rc.1").unwrap();
    assert!(release > prerelease);
}

#[test]
fn ordering_breaks_ties_between_prereleases_lexicographically() {
    let rc1 = parse_tag("v1.2.3-rc.1").unwrap();
    let rc2 = parse_tag("v1.2.3-rc.2").unwrap();
    assert!(rc2 > rc1);
}

#[test]
fn a_written_version_reads_back() {
    for tag in ["v1.2.3", "v0.0.0", "v10.20.30-rc.1", "v18446744073709551615.0.1"] {
        let v = parse_tag(tag).unwrap();
        assert_eq!(format_version(&v), tag);
        assert_eq!(parse_tag(&format_version(&v)), Some(v));
    }
    assert_eq!(parse_tag("v18446744073709551616.0.0"), None);
    assert_eq!(parse_tag("v1.2.3").unwrap(), parse_tag("1.2.3").unwrap());
}

#[test]
fn versions_are_ordered_by_their_numbers_first() {
    let order = ["0.9.9", "1.0.0-a", "1.0.0-b", "1.0.0", "1.0.1", "1.1.0", "2.0.0"];
    for (i, a) in order.iter().enumerate() {
        for (j, b) in order.iter().enumerate() {
            let (a, b) = (parse_tag(a).unwrap(), parse_tag(b).unwrap());
            assert_eq!(a < b, i < j);
            assert_eq!(a > b, i > j);
        }
    }
}
