use dipper::podcast::{Episode, Podcast};
use dipper::text::{contains_ci_str, i64_to_string};

#[test]
fn podcast_summary_and_detail() {
    let mut p = Podcast::new(
        "Show".to_string(),
        "All the things".to_string(),
        "u".to_string(),
    );
    assert_eq!(p.str(false), "-1 => Show");
    p.id = 12;
    assert_eq!(p.str(false), "12 => Show");
    assert_eq!(p.str(true), "12 => Show\nDescription: All the things\n");
}

#[test]
fn episode_summary_and_detail() {
    let mut e = Episode::new("Pilot".to_string(), "g".to_string(), "first one".to_string());
    e.id = 3;
    assert_eq!(e.str(false), "3 => Pilot");
    assert_eq!(e.str(true), "3 => Pilot\nDescription: first one\n");
}

#[test]
fn decimal_rendering_of_ids() {
    assert_eq!(i64_to_string(0), "0");
    assert_eq!(i64_to_string(42), "42");
    assert_eq!(i64_to_string(-1), "-1");
    assert_eq!(i64_to_string(1204), "1204");
    assert_eq!(i64_to_string(i64::MAX), "9223372036854775807");
    assert_eq!(i64_to_string(i64::MIN), "-9223372036854775808");
}

#[test]
fn case_insensitive_containment() {
    assert!(contains_ci_str("The Foobar Hour", "FOO"));
    assert!(contains_ci_str("plain", ""));
    assert!(!contains_ci_str("", "x"));
    assert!(contains_ci_str("ÉCLAIR beats", "beat"));
    // Lowercasing is ASCII-only, as a store's LIKE matching is.
    assert!(!contains_ci_str("ÉCLAIR", "éclair"));
    assert!(contains_ci_str("MiXeD", "mixed"));
}
