use firmware_catalog::version::{Precedence, Requirement, Version};

fn version(text: &str) -> Version {
    Version::parse(text).expect("a semantic version")
}

fn range(text: &str) -> Requirement {
    Requirement::parse(text).expect("a version range")
}

#[test]
fn versions_keep_their_text() {
    assert_eq!(version("1.4.2").as_str(), "1.4.2");
    assert_eq!(version("2.0.0-rc.1").as_str(), "2.0.0-rc.1");
    assert_eq!(version("0.8.1+zstd.1.5.0").as_str(), "0.8.1+zstd.1.5.0");
}

#[test]
fn malformed_versions_are_refused() {
    assert!(Version::parse("not.a.version").is_none());
    assert!(Version::parse("").is_none());
    assert!(Version::parse("1.0").is_none());
    assert!(Version::parse("1.0.01").is_none());
    assert!(Version::parse("1.0.0 ").is_none());
    assert!(Version::parse("1.0.0-").is_none());
    assert!(Version::parse("23456789999999999999.0.0").is_none());
}

#[test]
fn numbers_are_compared_as_numbers() {
    assert_eq!(version("1.5.0").precedence(&version("1.19.0")), Precedence::Lower);
    assert_eq!(version("1.19.0").precedence(&version("1.5.0")), Precedence::Higher);
    assert_eq!(version("2.0.0").precedence(&version("1.99.99")), Precedence::Higher);
    assert_eq!(version("1.2.3").precedence(&version("1.2.3")), Precedence::Same);
}

#[test]
fn a_pre_release_comes_before_its_release() {
    assert_eq!(version("1.0.0-alpha").precedence(&version("1.0.0")), Precedence::Lower);
    assert_eq!(version("1.0.0-alpha.1").precedence(&version("1.0.0-alpha")), Precedence::Higher);
    assert_eq!(version("1.0.0-beta.2").precedence(&version("1.0.0-beta.11")), Precedence::Lower);
}

#[test]
fn build_metadata_tells_versions_apart() {
    assert_eq!(version("1.20.0+bc17664").precedence(&version("1.20.0+c144a98")), Precedence::Lower);
    assert_eq!(version("1.20.0").precedence(&version("1.20.0+bc17664")), Precedence::Lower);
}

#[test]
fn comparing_the_other_way_round_reverses_the_outcome() {
    let texts = ["0.1.0", "1.0.0-alpha", "1.0.0", "1.0.0+build", "1.5.0", "1.19.0"];
    for a in texts {
        for b in texts {
            let forth = version(a).precedence(&version(b));
            let back = version(b).precedence(&version(a));
            let reversed = match forth {
                Precedence::Lower => Precedence::Higher,
                Precedence::Same => Precedence::Same,
                Precedence::Higher => Precedence::Lower,
            };
            assert_eq!(back, reversed);
            assert_eq!(forth == Precedence::Same, a == b);
        }
    }
}

#[test]
fn later_than_is_transitive() {
    let texts = ["0.1.0", "1.0.0-alpha", "1.0.0", "1.0.0+build", "1.5.0", "1.19.0"];
    for a in texts {
        for b in texts {
            for c in texts {
                let ab = version(a).precedence(&version(b));
                let bc = version(b).precedence(&version(c));
                if ab == Precedence::Higher && bc == Precedence::Higher {
                    assert_eq!(version(a).precedence(&version(c)), Precedence::Higher);
                }
            }
        }
    }
}

#[test]
fn a_clone_is_equal_to_what_it_was_cloned_from() {
    let first = version("3.1.4");
    let copy = first.clone();
    assert_eq!(copy.as_str(), "3.1.4");
    assert_eq!(copy.precedence(&first), Precedence::Same);
    let bounds = range(">=1.2.0, <2.0.0");
    assert_eq!(bounds.clone().as_str(), ">=1.2.0, <2.0.0");
}

#[test]
fn ranges_keep_their_text() {
    assert_eq!(range(">=1.2.0, <2.0.0").as_str(), ">=1.2.0, <2.0.0");
    assert_eq!(range("*").as_str(), "*");
}

#[test]
fn malformed_ranges_are_refused() {
    assert!(Requirement::parse("").is_none());
    assert!(Requirement::parse(">a.b").is_none());
    assert!(Requirement::parse("@1.0.0").is_none());
    assert!(Requirement::parse("^1.0.0, ").is_none());
    assert!(Requirement::parse(">=1.0 <2.0").is_none());
    assert!(Requirement::parse("*.*").is_none());
}

#[test]
fn a_compound_range_holds_what_lies_between_its_bounds() {
    let bounds = range(">=1.2.0, <2.0.0");
    assert!(bounds.matches(&version("1.2.0")));
    assert!(bounds.matches(&version("1.9.9")));
    assert!(!bounds.matches(&version("1.1.9")));
    assert!(!bounds.matches(&version("2.0.0")));
}

#[test]
fn comparison_operators_are_understood() {
    assert!(range("=1.2.3").matches(&version("1.2.3")));
    assert!(!range("=1.2.3").matches(&version("1.2.4")));
    assert!(range(">1.2.3").matches(&version("1.2.4")));
    assert!(!range(">1.2.3").matches(&version("1.2.3")));
    assert!(range("<=1.2.3").matches(&version("1.2.3")));
    assert!(!range("<1.2.3").matches(&version("1.2.3")));
    assert!(range("~1.2.3").matches(&version("1.2.9")));
    assert!(!range("~1.2.3").matches(&version("1.3.0")));
    assert!(range("^1.2.3").matches(&version("1.9.0")));
    assert!(!range("^1.2.3").matches(&version("2.0.0")));
    assert!(range("1.2.3").matches(&version("1.4.0")));
    assert!(range("*").matches(&version("0.0.1")));
}

#[test]
fn a_range_is_matched_by_value_not_by_text() {
    assert!(range(">=1.0.0").matches(&version("1.10.0")));
    assert!(!range("<1.9.0").matches(&version("1.10.0")));
    assert!(!range("1.0.0").matches(&version("2.0.0")));
}

#[test]
fn a_pre_release_needs_a_range_that_names_it() {
    assert!(!range(">=1.0.0").matches(&version("1.1.0-alpha")));
    assert!(range(">=1.1.0-alpha").matches(&version("1.1.0-beta")));
    assert!(!range("*").matches(&version("1.0.0-rc.1")));
}
