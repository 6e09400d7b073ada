use php_switcher::config::{get_config_path, Config, ToolEntry, ToolsConfig};
use php_switcher::detector::PhpInstallation;
use php_switcher::tools::PhpTool;
use php_switcher::version::PhpVersion;

#[test]
fn test_default_config() {
    let config = Config::default();

    assert!(config.settings.last_scan.is_none());
    assert!(config.settings.default_version.is_none());
    assert!(config.versions.is_empty());
}

#[test]
fn test_tools_config_default() {
    let tools_config = ToolsConfig::default();

    assert!(!tools_config.scan_for_tools);
    assert!(tools_config.custom_tool_names.is_empty());
    assert!(tools_config.custom_search_paths.is_empty());
    assert!(tools_config.managed.is_empty());
}

#[test]
fn test_config_with_tools() {
    let mut config = Config::default();
    config.tools.scan_for_tools = true;
    config.tools.managed.push(ToolEntry {
        name: "composer".to_string(),
        original_path: String::from("/usr/bin/composer"),
        shebang: "#!/usr/bin/php".to_string(),
        shim_created: true,
    });

    assert!(config.tools.scan_for_tools);
    assert_eq!(config.tools.managed.len(), 1);
    assert_eq!(config.tools.managed[0].name, "composer");
}

#[test]
fn test_update_versions_from_installations() {
    let mut config = Config::default();
    let installations = vec![
        PhpInstallation::new(PhpVersion::new(8, 2, 12), String::from("/usr/bin/php8.2")),
        PhpInstallation::new(PhpVersion::new(7, 4, 33), String::from("/usr/bin/php7.4")),
    ];

    config.update_from_installations(&installations);

    assert_eq!(config.versions.len(), 2);
    assert_eq!(config.versions[0].version, "8.2.12");
    assert_eq!(config.versions[1].version, "7.4.33");
}

#[test]
fn test_get_config_path() {
    let path = get_config_path();
    assert!(path.is_ok());

    let path = path.unwrap();
    assert!(path.contains(".php-switcher"));
    assert!(path.ends_with("config.toml"));
}

#[test]
fn test_update_records_scan_time() {
    let mut config = Config::default();
    config.update_from_installations(&Vec::new());
    assert!(config.versions.is_empty());
    assert!(config.settings.last_scan.is_some());
}

fn cached_config() -> Config {
    let mut config = Config::default();
    let installations = vec![
        PhpInstallation::with_paths(
            PhpVersion::new(8, 2, 12),
            vec![String::from("/usr/bin/php8.2"), String::from("/usr/bin/php8.2-cgi")],
        ),
        PhpInstallation::new(PhpVersion::new(7, 4, 33), String::from("/usr/bin/php7.4")),
    ];
    config.update_from_installations(&installations);
    config
}

#[test]
fn test_lookup_resolves_newest_matching() {
    // The cache is newest-first, so the under-specified pattern takes 8.2.12.
    let config = cached_config();
    let paths = config.get_installation_by_version("8").unwrap();
    assert_eq!(
        paths,
        vec![String::from("/usr/bin/php8.2"), String::from("/usr/bin/php8.2-cgi")]
    );
    let paths = config.get_installation_by_version("7.4").unwrap();
    assert_eq!(paths, vec![String::from("/usr/bin/php7.4")]);
}

#[test]
fn test_lookup_unmatched_pattern_is_none() {
    let config = cached_config();
    assert!(config.get_installation_by_version("9").is_none());
    assert!(config.get_installation_by_version("8.3").is_none());
}

#[test]
fn test_primary_path_by_version() {
    let mut config = Config::default();
    let installations = vec![PhpInstallation::with_paths(
        PhpVersion::new(8, 2, 12),
        vec![String::from("/usr/bin/php8.2-cgi"), String::from("/usr/bin/php")],
    )];
    config.update_from_installations(&installations);

    // The path named exactly `php` wins over the first path.
    assert_eq!(
        config.get_primary_path_by_version("8.2"),
        Some(String::from("/usr/bin/php"))
    );
    assert_eq!(config.get_primary_path_by_version("9"), None);
}

#[test]
fn test_set_managed_from_tools() {
    let mut config = Config::default();
    config.tools.managed.push(ToolEntry {
        name: "stale".to_string(),
        original_path: String::from("/old/stale"),
        shebang: "#!/usr/bin/php".to_string(),
        shim_created: true,
    });
    let tools = vec![PhpTool {
        name: "composer".to_string(),
        original_path: String::from("/usr/bin/composer"),
        shebang: "#!/usr/bin/php".to_string(),
    }];
    config.tools.set_managed_from_tools(&tools);
    assert_eq!(config.tools.managed.len(), 1);
    assert_eq!(config.tools.managed[0].name, "composer");
    assert!(!config.tools.managed[0].shim_created);
}
