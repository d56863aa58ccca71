use ginger_connector::version::{Channel, Version};
use std::cmp::Ordering;

fn v(channel: Channel, major: u32, minor: u32, patch: u32, revision: u32) -> Version {
    Version { channel, major, minor, patch, revision }
}

#[test]
fn final_version_formats_short() {
    assert_eq!(v(Channel::Final, 1, 2, 3, 0).formatted(), "1.2.3");
}

#[test]
fn prerelease_version_formats_full() {
    assert_eq!(v(Channel::Alpha, 1, 2, 3, 4).formatted(), "1.2.3-alpha.4");
    assert_eq!(v(Channel::Nightly, 0, 51, 0, 0).formatted(), "0.51.0-nightly.0");
    assert_eq!(v(Channel::Beta, 10, 0, 7, 12).formatted(), "10.0.7-beta.12");
}

#[test]
fn roundtrip_canonical_short_form() {
    let s = "1.2.3";
    assert_eq!(Version::parse(s).formatted(), s);
}

#[test]
fn roundtrip_canonical_full_form() {
    let s = "1.2.3-alpha.4";
    assert_eq!(Version::parse(s).formatted(), s);
}

#[test]
fn parse_reads_all_fields() {
    assert_eq!(Version::parse("1.2.3"), v(Channel::Final, 1, 2, 3, 0));
    assert_eq!(Version::parse("1.2.3-alpha.4"), v(Channel::Alpha, 1, 2, 3, 4));
    assert_eq!(Version::parse("0.51.0-nightly.0"), v(Channel::Nightly, 0, 51, 0, 0));
}

#[test]
fn parse_defaults_missing_tokens_to_zero() {
    assert_eq!(Version::parse(""), v(Channel::Final, 0, 0, 0, 0));
    assert_eq!(Version::parse("1.2"), v(Channel::Final, 1, 2, 0, 0));
    assert_eq!(Version::parse("x.y.z"), v(Channel::Final, 0, 0, 0, 0));
    assert_eq!(Version::parse("1.2.3-beta"), v(Channel::Beta, 1, 2, 3, 0));
}

#[test]
fn parse_defaults_unreadable_numbers_to_zero() {
    // Too large for u32 defaults to zero.
    assert_eq!(Version::parse("4294967296.2.3"), v(Channel::Final, 0, 2, 3, 0));
    // A leading minus makes the first token empty and a fourth appear,
    // so the whole string is rejected rather than misread.
    assert_eq!(Version::parse_checked("-1.2.3"), None);
    // A leading plus sign is part of the unsigned grammar.
    assert_eq!(Version::parse("+42.1.0"), v(Channel::Final, 42, 1, 0, 0));
    assert_eq!(Version::parse("4294967295.0.0"), v(Channel::Final, u32::MAX, 0, 0, 0));
}

#[test]
fn parse_checked_rejects_unknown_channel() {
    assert_eq!(Version::parse_checked("1.2.3-bogus.4"), None);
    assert_eq!(Version::parse_checked("1.2.3-alpha.4"), Some(v(Channel::Alpha, 1, 2, 3, 4)));
    assert_eq!(Version::parse_checked("1.2.3"), Some(v(Channel::Final, 1, 2, 3, 0)));
}

#[test]
fn patch_ordering() {
    let a = Version::parse("1.2.3");
    let b = Version::parse("1.2.4");
    assert_eq!(a.compare(&b), Ordering::Less);
    assert_eq!(b.compare(&a), Ordering::Greater);
}

#[test]
fn channel_rank_follows_declaration_order() {
    // Final ranks below every pre-release channel, as declared.
    let nightly = Version::parse("1.0.0-nightly.0");
    let fin = Version::parse("1.0.0");
    assert_eq!(fin.compare(&nightly), Ordering::Less);
    assert_eq!(nightly.compare(&fin), Ordering::Greater);
    assert_eq!(Channel::Final.rank(), 0);
    assert_eq!(Channel::Nightly.rank(), 1);
    assert_eq!(Channel::Alpha.rank(), 2);
    assert_eq!(Channel::Beta.rank(), 3);
}

#[test]
fn lexicographic_ordering_across_fields() {
    assert_eq!(Version::parse("2.0.0").compare(&Version::parse("1.9.9")), Ordering::Greater);
    assert_eq!(Version::parse("1.3.0").compare(&Version::parse("1.2.9")), Ordering::Greater);
    assert_eq!(
        Version::parse("1.0.0-alpha.1").compare(&Version::parse("1.0.0-alpha.2")),
        Ordering::Less
    );
    assert_eq!(
        Version::parse("1.0.0-nightly.9").compare(&Version::parse("1.0.0-alpha.0")),
        Ordering::Less
    );
    assert_eq!(Version::parse("1.2.3").compare(&Version::parse("1.2.3")), Ordering::Equal);
}

#[test]
fn channel_labels_parse_back() {
    assert_eq!(Channel::parse(&"nightly".to_string()), Some(Channel::Nightly));
    assert_eq!(Channel::parse(&"alpha".to_string()), Some(Channel::Alpha));
    assert_eq!(Channel::parse(&"beta".to_string()), Some(Channel::Beta));
    assert_eq!(Channel::parse(&"final".to_string()), Some(Channel::Final));
    assert_eq!(Channel::parse(&"Nightly".to_string()), None);
    assert_eq!(Channel::Nightly.label(), "nightly");
}
