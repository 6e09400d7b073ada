use php_switcher::hints::{installation_hint_lines, strip_dots};
use php_switcher::platform::{linux, macos, Platform};

#[test]
fn test_platform_name() {
    assert_eq!(Platform::Linux.name(), "Linux");
    assert_eq!(Platform::MacOS.name(), "macOS");
    assert_eq!(Platform::BSD.name(), "BSD");
    assert_eq!(Platform::Other.name(), "Unknown");
}

#[test]
fn test_linux_paths_and_patterns() {
    assert_eq!(
        linux::get_common_php_paths(),
        vec!["/usr/bin/php", "/usr/local/bin/php", "/opt/php"]
    );
    assert_eq!(
        linux::get_scan_patterns(),
        vec!["/usr/bin/php*", "/usr/local/bin/php*", "/usr/lib/php*", "/opt/php*"]
    );
}

#[test]
fn test_macos_paths_and_patterns() {
    assert_eq!(
        macos::get_common_php_paths(),
        vec!["/usr/bin/php", "/usr/local/bin/php", "/opt/homebrew/bin/php"]
    );
    assert_eq!(
        macos::get_scan_patterns(),
        vec![
            "/usr/local/Cellar/php*",
            "/opt/homebrew/Cellar/php*",
            "/usr/local/bin/php*",
            "/opt/homebrew/bin/php*",
        ]
    );
}

#[test]
fn test_strip_dots() {
    assert_eq!(strip_dots("8.1"), "81");
    assert_eq!(strip_dots("8.1.0"), "810");
    assert_eq!(strip_dots("8"), "8");
    assert_eq!(strip_dots(""), "");
}

#[test]
fn test_hint_lines_linux() {
    let lines = installation_hint_lines("8.1", Platform::Linux);
    assert_eq!(lines.len(), 5);
    assert_eq!(lines[0], "dnf search php8.1 php81");
    assert_eq!(lines[1], "apt search php8.1");
    assert_eq!(lines[2], "zypper search php8.1");
}

#[test]
fn test_hint_lines_macos() {
    let lines = installation_hint_lines("8.2", Platform::MacOS);
    assert_eq!(lines.len(), 3);
    assert_eq!(lines[0], "brew install php@8.2");
    assert_eq!(lines[2], "brew install shivammathur/php/php@8.2");
}

#[test]
fn test_hint_lines_bsd() {
    let lines = installation_hint_lines("8.3", Platform::BSD);
    assert_eq!(lines.len(), 3);
    assert_eq!(lines[0], "pkg search php83");
    assert_eq!(lines[1], "pkg install php83");
}

#[test]
fn test_hint_lines_other() {
    let lines = installation_hint_lines("7.4", Platform::Other);
    assert_eq!(lines.len(), 2);
    assert_eq!(lines[0], "Check your system's package manager for PHP 7.4");
}
