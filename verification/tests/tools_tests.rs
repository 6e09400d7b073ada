use php_switcher::tools::{common_tool_names, needs_shim, shebang_of_line, tool_names};

#[test]
fn test_needs_shim_hardcoded() {
    assert!(needs_shim("#!/usr/bin/php"));
    assert!(needs_shim("#!/bin/php"));
    assert!(needs_shim("#!/usr/local/bin/php"));
}

#[test]
fn test_needs_shim_env() {
    assert!(!needs_shim("#!/usr/bin/env php"));
    assert!(!needs_shim("#!/bin/env php"));
}

#[test]
fn test_needs_shim_edge_cases() {
    assert!(!needs_shim(""));
    assert!(!needs_shim("#!"));
    assert!(needs_shim("#!/opt/php/bin/php"));
}

#[test]
fn test_needs_shim_ignores_other_interpreters() {
    assert!(!needs_shim("#!/bin/bash"));
    assert!(!needs_shim("no shebang php"));
}

#[test]
fn test_shebang_of_line_hardcoded() {
    assert_eq!(shebang_of_line("#!/usr/bin/php\n"), Some(String::from("#!/usr/bin/php")));
}

#[test]
fn test_shebang_of_line_env() {
    assert_eq!(
        shebang_of_line("  #!/usr/bin/env php  \n"),
        Some(String::from("#!/usr/bin/env php"))
    );
}

#[test]
fn test_shebang_of_line_invalid() {
    assert_eq!(shebang_of_line("<?php"), None);
    assert_eq!(shebang_of_line(""), None);
    assert_eq!(shebang_of_line("   \n"), None);
}

#[test]
fn test_common_tool_names_fixed_set() {
    let names = common_tool_names();
    assert_eq!(
        names,
        vec![
            "composer",
            "phpunit",
            "psalm",
            "phpstan",
            "rector",
            "php-cs-fixer",
            "phpize",
            "php-config",
        ]
    );
}

#[test]
fn test_tool_names_appends_custom() {
    let custom = vec![String::from("my-custom-tool")];
    let names = tool_names(&custom);
    assert_eq!(names.len(), 9);
    assert_eq!(names[0], "composer");
    assert_eq!(names[8], "my-custom-tool");
}
