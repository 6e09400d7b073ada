use php_switcher::detector::{
    is_php_candidate_name, merge_probed, parse_php_v_output, PhpInstallation, ProbeRecord,
};
use php_switcher::version::PhpVersion;

#[test]
fn test_parse_php_v_output() {
    let output = "PHP 8.2.12 (cli) (built: Oct 24 2023 12:00:00) (NTS)";
    let result = parse_php_v_output(output);

    assert!(result.is_ok());
    let version = result.unwrap();
    assert_eq!(version.major, 8);
    assert_eq!(version.minor, 2);
    assert_eq!(version.patch, 12);
}

#[test]
fn test_installation_from_path() {
    let version = PhpVersion::new(8, 2, 12);
    let path = String::from("/usr/bin/php8.2");
    let installation = PhpInstallation::new(version.clone(), path.clone());

    assert_eq!(installation.version, version);
    assert_eq!(installation.paths.len(), 1);
    assert_eq!(installation.paths[0], path);
    assert_eq!(installation.primary_path(), Some(path));
}

#[test]
fn test_installation_with_multiple_paths() {
    let version = PhpVersion::new(8, 2, 12);
    let paths = vec![
        String::from("/usr/bin/php"),
        String::from("/usr/bin/php-cgi"),
        String::from("/usr/bin/php-fpm"),
    ];
    let installation = PhpInstallation::with_paths(version.clone(), paths.clone());

    assert_eq!(installation.version, version);
    assert_eq!(installation.paths.len(), 3);
    assert_eq!(installation.primary_path(), Some(String::from("/usr/bin/php")));
}

#[test]
fn test_installation_primary_path_fallback() {
    let version = PhpVersion::new(8, 2, 12);
    let paths = vec![
        String::from("/usr/bin/php-cgi"),
        String::from("/usr/bin/php-fpm"),
    ];
    let installation = PhpInstallation::with_paths(version.clone(), paths.clone());

    assert_eq!(installation.primary_path(), Some(String::from("/usr/bin/php-cgi")));
}

#[test]
fn test_installation_add_path() {
    let version = PhpVersion::new(8, 2, 12);
    let mut installation = PhpInstallation::new(version, String::from("/usr/bin/php"));

    assert_eq!(installation.paths.len(), 1);

    installation.add_path(String::from("/usr/bin/php-cgi"));
    assert_eq!(installation.paths.len(), 2);

    installation.add_path(String::from("/usr/bin/php-cgi"));
    assert_eq!(installation.paths.len(), 2);
}

fn record(version: (u32, u32, u32), path: &str, canonical: &str) -> ProbeRecord {
    ProbeRecord {
        version: PhpVersion::new(version.0, version.1, version.2),
        path: String::from(path),
        canonical: String::from(canonical),
    }
}

#[test]
fn test_merge_dedups_by_canonical_path() {
    // Two scan roots lead to the same file: only the first is kept.
    let records = vec![
        record((8, 2, 12), "/usr/bin/php8.2", "/opt/php/8.2/bin/php"),
        record((8, 2, 12), "/usr/local/bin/php", "/opt/php/8.2/bin/php"),
    ];
    let merged = merge_probed(records);
    assert_eq!(merged.len(), 1);
    assert_eq!(merged[0].paths, vec![String::from("/usr/bin/php8.2")]);
}

#[test]
fn test_merge_groups_same_version() {
    let records = vec![
        record((8, 2, 12), "/usr/bin/php", "/real/php"),
        record((8, 2, 12), "/usr/bin/php-cgi", "/real/php-cgi"),
        record((8, 2, 12), "/usr/bin/php-fpm", "/real/php-fpm"),
    ];
    let merged = merge_probed(records);
    assert_eq!(merged.len(), 1);
    assert_eq!(
        merged[0].paths,
        vec![
            String::from("/usr/bin/php"),
            String::from("/usr/bin/php-cgi"),
            String::from("/usr/bin/php-fpm"),
        ]
    );
}

#[test]
fn test_merge_sorts_newest_first() {
    let records = vec![
        record((7, 4, 33), "/usr/bin/php7.4", "/real/php7.4"),
        record((8, 2, 12), "/usr/bin/php8.2", "/real/php8.2"),
        record((8, 1, 27), "/usr/bin/php8.1", "/real/php8.1"),
    ];
    let merged = merge_probed(records);
    assert_eq!(merged.len(), 3);
    assert_eq!(merged[0].version, PhpVersion::new(8, 2, 12));
    assert_eq!(merged[1].version, PhpVersion::new(8, 1, 27));
    assert_eq!(merged[2].version, PhpVersion::new(7, 4, 33));
}

#[test]
fn test_merge_empty_records() {
    let merged = merge_probed(Vec::new());
    assert!(merged.is_empty());
}

#[test]
fn test_php_candidate_names() {
    assert!(is_php_candidate_name("php"));
    assert!(is_php_candidate_name("php8.2"));
    assert!(is_php_candidate_name("php-cgi"));
    assert!(!is_php_candidate_name("ph"));
    assert!(!is_php_candidate_name("perl"));
    assert!(!is_php_candidate_name(""));
}
