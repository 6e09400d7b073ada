use php_switcher::version::{ParseError, PhpVersion};

#[test]
fn test_parse_php_version_standard() {
    let output = "PHP 8.2.12 (cli) (built: Oct 24 2023 12:00:00) (NTS)";
    let version = PhpVersion::from_php_output(output);

    assert!(version.is_ok());
    let version = version.unwrap();
    assert_eq!(version.major, 8);
    assert_eq!(version.minor, 2);
    assert_eq!(version.patch, 12);
    assert_eq!(version.to_string(), "8.2.12");
}

#[test]
fn test_parse_php_version_simple() {
    let output = "PHP 7.4.33";
    let version = PhpVersion::from_php_output(output);

    assert!(version.is_ok());
    let version = version.unwrap();
    assert_eq!(version.major, 7);
    assert_eq!(version.minor, 4);
    assert_eq!(version.patch, 33);
}

#[test]
fn test_parse_php_version_with_suffix() {
    let output = "PHP 8.4.0-dev (cli) (built: Oct 23 2025 10:00:00) (NTS)";
    let version = PhpVersion::from_php_output(output);

    assert!(version.is_ok());
    let version = version.unwrap();
    assert_eq!(version.major, 8);
    assert_eq!(version.minor, 4);
    assert_eq!(version.patch, 0);
}

#[test]
fn test_parse_invalid_version() {
    let output = "Not a PHP version";
    let version = PhpVersion::from_php_output(output);
    assert!(version.is_err());
}

#[test]
fn test_version_comparison() {
    let v1 = PhpVersion::new(8, 2, 12);
    let v2 = PhpVersion::new(8, 2, 11);
    let v3 = PhpVersion::new(8, 3, 0);

    assert!(v1 > v2);
    assert!(v3 > v1);
    assert_eq!(v1, PhpVersion::new(8, 2, 12));
}

#[test]
fn test_partial_match() {
    let version = PhpVersion::new(8, 2, 12);

    assert!(version.matches("8.2.12"));
    assert!(version.matches("8.2"));
    assert!(version.matches("8"));
    assert!(!version.matches("8.3"));
    assert!(!version.matches("7"));
}

#[test]
fn test_short_version_string() {
    let version = PhpVersion::new(8, 2, 12);
    assert_eq!(version.short_version(), "8.2");
}

#[test]
fn test_parse_no_version_error_variant() {
    assert_eq!(
        PhpVersion::from_php_output("this interpreter keeps quiet"),
        Err(ParseError::NoVersionFound)
    );
}

#[test]
fn test_parse_component_out_of_range() {
    assert_eq!(
        PhpVersion::from_php_output("PHP 99999999999.1.2"),
        Err(ParseError::ComponentOutOfRange)
    );
}

#[test]
fn test_parse_uses_first_match() {
    let version = PhpVersion::from_php_output("with Zend v4.3; PHP 7.4.33, then PHP 8.1.2").unwrap();
    assert_eq!(version, PhpVersion::new(7, 4, 33));
}

#[test]
fn test_parse_ignores_surrounding_text() {
    let version = PhpVersion::from_php_output("banner:  PHP   8.1.27-ubuntu (cli)").unwrap();
    assert_eq!(version, PhpVersion::new(8, 1, 27));
}

#[test]
fn test_matches_own_string() {
    for (a, b, c) in [(8, 2, 12), (0, 0, 0), (10, 0, 3), (4294967295, 1, 2)] {
        let v = PhpVersion::new(a, b, c);
        assert!(v.matches(&v.to_string()));
    }
}

#[test]
fn test_matches_rejects_bad_patterns() {
    let v = PhpVersion::new(8, 2, 12);
    assert!(!v.matches(""));
    assert!(!v.matches("8.2.12.0"));
    assert!(!v.matches("eight"));
    assert!(!v.matches("8.x"));
    assert!(!v.matches("8..12"));
}

#[test]
fn test_matches_accepts_plus_prefixed_numbers() {
    // u32 parsing accepts a leading plus sign, so the pattern does too.
    let v = PhpVersion::new(8, 2, 12);
    assert!(v.matches("+8"));
    assert!(v.matches("8.+2"));
}

#[test]
fn test_ordering_exactly_one_relation() {
    let vs = [
        PhpVersion::new(8, 2, 12),
        PhpVersion::new(8, 2, 11),
        PhpVersion::new(7, 9, 9),
        PhpVersion::new(8, 3, 0),
    ];
    for a in &vs {
        for b in &vs {
            let relations =
                [a < b, a == b, a > b].iter().filter(|&&r| r).count();
            assert_eq!(relations, 1);
        }
    }
}
