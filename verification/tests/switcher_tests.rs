use std::collections::BTreeMap;

use php_switcher::switcher::{
    alias_for_path, compute_symlink_plan, create_shims_for_tools, get_bin_dir, shims_for_tools,
    switch_step, LinkEntry, SwitchAction, SwitchError, SwitchState, SwitchEvent,
};
use php_switcher::config::Config;
use php_switcher::detector::PhpInstallation;
use php_switcher::tools::PhpTool;
use php_switcher::version::PhpVersion;

#[test]
fn test_get_bin_dir() {
    let bin_dir = get_bin_dir();
    assert!(bin_dir.is_ok());

    let path = bin_dir.unwrap();
    assert!(path.contains(".php-switcher"));
    assert!(path.ends_with("bin"));
}

#[test]
fn test_create_symlinks_with_empty_paths() {
    // An empty path set cannot be switched to.
    assert_eq!(compute_symlink_plan(&Vec::new()), Err(SwitchError::NoBinaries));
}

#[test]
fn test_alias_derivation() {
    // A version token embedded in the name is stripped.
    assert_eq!(alias_for_path("/usr/bin/php84-cgi"), Some(String::from("php-cgi")));
    assert_eq!(alias_for_path("/usr/bin/php8.1-fpm"), Some(String::from("php-fpm")));
    // A name that is only the version token is redundant with the primary.
    assert_eq!(alias_for_path("/usr/bin/php84"), None);
    assert_eq!(alias_for_path("/usr/bin/php8.1"), None);
    // The canonical name itself is already the primary entry.
    assert_eq!(alias_for_path("/usr/bin/php"), None);
    // A name without the expected prefix is kept as it is.
    assert_eq!(alias_for_path("/usr/bin/phar"), Some(String::from("phar")));
}

fn plan_pairs(plan: &[LinkEntry]) -> Vec<(String, String)> {
    plan.iter().map(|e| (e.name.clone(), e.target.clone())).collect()
}

#[test]
fn test_create_symlinks_with_versioned_binary() {
    let paths = vec![String::from("/source/php81")];
    let plan = compute_symlink_plan(&paths).unwrap();
    assert_eq!(
        plan_pairs(&plan),
        vec![(String::from("php"), String::from("/source/php81"))]
    );
}

#[test]
fn test_create_symlinks_with_related_binaries() {
    let paths = vec![String::from("/source/php81"), String::from("/source/php81-cgi")];
    let plan = compute_symlink_plan(&paths).unwrap();
    assert_eq!(
        plan_pairs(&plan),
        vec![
            (String::from("php"), String::from("/source/php81")),
            (String::from("php-cgi"), String::from("/source/php81-cgi")),
        ]
    );
}

fn apply(dir: &mut BTreeMap<String, String>, plan: &[LinkEntry]) {
    for e in plan {
        dir.insert(e.name.clone(), e.target.clone());
    }
}

#[test]
fn test_switch_idempotence() {
    // Applying the same plan twice leaves an identical directory listing.
    let paths = vec![
        String::from("/usr/bin/php8.2"),
        String::from("/usr/bin/php8.2-cgi"),
        String::from("/usr/bin/php"),
    ];
    let plan_a = compute_symlink_plan(&paths).unwrap();
    let plan_b = compute_symlink_plan(&paths).unwrap();
    assert_eq!(plan_pairs(&plan_a), plan_pairs(&plan_b));

    let mut dir = BTreeMap::new();
    dir.insert(String::from("php-fpm"), String::from("/stale/php-fpm"));
    apply(&mut dir, &plan_a);
    let once: Vec<(String, String)> =
        dir.iter().map(|(k, v)| (k.clone(), v.clone())).collect();
    apply(&mut dir, &plan_b);
    let twice: Vec<(String, String)> =
        dir.iter().map(|(k, v)| (k.clone(), v.clone())).collect();
    assert_eq!(once, twice);
}

#[test]
fn test_switch_step_resolves_from_cache() {
    let paths = vec![String::from("/usr/bin/php8.2")];
    let (state, action) = switch_step(
        SwitchState::Resolving,
        SwitchEvent::LookupDone(Some(paths)),
    );
    assert!(matches!(state, SwitchState::Linking));
    match action {
        SwitchAction::ApplyLinks(plan) => {
            assert_eq!(
                plan_pairs(&plan),
                vec![(String::from("php"), String::from("/usr/bin/php8.2"))]
            );
        }
        _ => panic!("expected a linking action"),
    }
}

#[test]
fn test_switch_step_missing_version_rescans_then_fails() {
    // An unmatched pattern first triggers a rescan...
    let (state, action) = switch_step(SwitchState::Resolving, SwitchEvent::LookupDone(None));
    assert!(matches!(state, SwitchState::Scanning));
    assert!(matches!(action, SwitchAction::RescanThenQuery));

    // ...and when the fresh scan still finds nothing, the switch is a
    // terminal failure accompanied by installation hints.
    let (state, action) = switch_step(state, SwitchEvent::ScanLookupDone(None));
    assert_eq!(state_error(&state), Some(SwitchError::NotFound));
    assert!(matches!(action, SwitchAction::ShowHintsAndStop));
}

fn state_error(state: &SwitchState) -> Option<SwitchError> {
    match state {
        SwitchState::Failed(e) => Some(e.clone()),
        _ => None,
    }
}

#[test]
fn test_switch_step_link_failure_aborts() {
    let (state, action) = switch_step(SwitchState::Linking, SwitchEvent::LinkApplied(false));
    assert_eq!(state_error(&state), Some(SwitchError::LinkFailed));
    assert!(matches!(action, SwitchAction::Stop));
}

#[test]
fn test_switch_step_verification_is_advisory() {
    // The probe may fail; the switch still succeeds.
    let (state, _) = switch_step(SwitchState::Verifying, SwitchEvent::ProbeChecked(false));
    assert!(matches!(state, SwitchState::Done));
    let (state, _) = switch_step(SwitchState::Verifying, SwitchEvent::ProbeChecked(true));
    assert!(matches!(state, SwitchState::Done));
}

#[test]
fn test_switch_step_unexpected_event() {
    let (state, _) = switch_step(SwitchState::Done, SwitchEvent::LinkApplied(true));
    assert_eq!(state_error(&state), Some(SwitchError::UnexpectedEvent));
}

#[test]
fn test_create_shims_for_tools() {
    let tools = vec![
        PhpTool {
            name: "composer".to_string(),
            original_path: String::from("/usr/bin/composer"),
            shebang: "#!/usr/bin/php".to_string(),
        },
        PhpTool {
            name: "phpunit".to_string(),
            original_path: String::from("/usr/bin/phpunit"),
            shebang: "#!/usr/bin/php".to_string(),
        },
    ];

    let result = create_shims_for_tools(&tools, "bin");

    assert!(result.is_ok());
    let shims = result.unwrap();

    assert_eq!(shims.len(), 2);
    assert!(shims.iter().any(|s| s.name == "composer" && s.path == "bin/composer"));
    assert!(shims.iter().any(|s| s.name == "phpunit" && s.path == "bin/phpunit"));
}

#[test]
fn test_skip_shim_for_env_tools() {
    let tools = vec![PhpTool {
        name: "phpunit".to_string(),
        original_path: String::from("/usr/bin/phpunit"),
        shebang: "#!/usr/bin/env php".to_string(),
    }];

    let result = create_shims_for_tools(&tools, "bin");

    assert!(result.is_ok());
    let shims = result.unwrap();

    assert_eq!(shims.len(), 0);
    assert!(!shims.iter().any(|s| s.name == "phpunit"));
}

#[test]
fn test_create_shim_content() {
    let tool = PhpTool {
        name: "composer".to_string(),
        original_path: String::from("/usr/bin/composer"),
        shebang: "#!/usr/bin/php".to_string(),
    };

    let shims = shims_for_tools(&vec![tool], "bin", "/home/me/.php-switcher/bin/php");
    assert_eq!(shims.len(), 1);
    let shim = &shims[0];

    assert_eq!(shim.path, "bin/composer");
    assert!(shim.content.starts_with("#!/bin/bash"));
    assert!(shim.content.contains(".php-switcher/bin/php"));
    assert!(shim.content.contains("/usr/bin/composer"));
    assert!(shim.content.contains("\"$@\""));
    assert!(shim.executable);
}

#[test]
fn test_update_shims_on_rescan() {
    // An old shim in the directory is replaced by the regenerated one.
    let tools = vec![PhpTool {
        name: "composer".to_string(),
        original_path: String::from("/usr/bin/composer"),
        shebang: "#!/usr/bin/php".to_string(),
    }];
    let mut dir: BTreeMap<String, String> = BTreeMap::new();
    dir.insert(String::from("composer"), String::from("#!/bin/bash\necho 'old shim'"));
    let shims = create_shims_for_tools(&tools, "bin").unwrap();
    for s in &shims {
        dir.insert(s.name.clone(), s.content.clone());
    }
    let content = &dir[&String::from("composer")];
    assert!(content.contains(".php-switcher/bin/php"));
    assert!(!content.contains("old shim"));
}

#[test]
fn test_shim_regeneration_overwrites() {
    // Generating a shim twice produces the same single entry, marked
    // executable, and re-writing it leaves the directory unchanged.
    let tools = vec![PhpTool {
        name: "composer".to_string(),
        original_path: String::from("/usr/bin/composer"),
        shebang: "#!/usr/bin/php".to_string(),
    }];
    let first = shims_for_tools(&tools, "bin", "/home/me/.php-switcher/bin/php");
    let second = shims_for_tools(&tools, "bin", "/home/me/.php-switcher/bin/php");
    assert_eq!(first, second);
    assert!(first.iter().all(|s| s.executable));

    let mut dir: BTreeMap<String, String> = BTreeMap::new();
    dir.insert(String::from("composer"), String::from("old shim"));
    for s in &first {
        dir.insert(s.name.clone(), s.content.clone());
    }
    assert_eq!(dir.len(), 1);
    assert!(!dir[&String::from("composer")].contains("old shim"));
    let once = dir.clone();
    for s in &second {
        dir.insert(s.name.clone(), s.content.clone());
    }
    assert_eq!(dir, once);
}

#[test]
fn test_switch_step_cached_entry_without_paths_fails() {
    // A cached entry with an empty path set is a terminal failure, not
    // a reason to rescan.
    let (state, action) = switch_step(
        SwitchState::Resolving,
        SwitchEvent::LookupDone(Some(Vec::new())),
    );
    assert_eq!(state_error(&state), Some(SwitchError::NotFound));
    assert!(matches!(action, SwitchAction::ShowHintsAndStop));
}

#[test]
fn test_end_to_end_resolution() {
    // Cache holds 8.2.12 and 7.4.33. Pattern "8" resolves to 8.2.12's
    // path set; pattern "9" triggers a rescan and, with nothing new
    // found, ends in a NotFound failure with installation hints.
    let mut config = Config::default();
    let installations = vec![
        PhpInstallation::with_paths(
            PhpVersion::new(8, 2, 12),
            vec![String::from("/usr/bin/php8.2"), String::from("/usr/bin/php8.2-cgi")],
        ),
        PhpInstallation::new(PhpVersion::new(7, 4, 33), String::from("/usr/bin/php7.4")),
    ];
    config.update_from_installations(&installations);

    let found = config.get_installation_by_version("8");
    assert_eq!(
        found,
        Some(vec![String::from("/usr/bin/php8.2"), String::from("/usr/bin/php8.2-cgi")])
    );
    let (state, action) = switch_step(SwitchState::Resolving, SwitchEvent::LookupDone(found));
    assert!(matches!(state, SwitchState::Linking));
    match action {
        SwitchAction::ApplyLinks(plan) => {
            assert_eq!(
                plan_pairs(&plan),
                vec![
                    (String::from("php"), String::from("/usr/bin/php8.2")),
                    (String::from("php-cgi"), String::from("/usr/bin/php8.2-cgi")),
                ]
            );
        }
        _ => panic!("expected a linking action"),
    }

    let missing = config.get_installation_by_version("9");
    assert_eq!(missing, None);
    let (state, action) = switch_step(SwitchState::Resolving, SwitchEvent::LookupDone(missing));
    assert!(matches!(state, SwitchState::Scanning));
    assert!(matches!(action, SwitchAction::RescanThenQuery));

    // The rescan finds nothing new; the retried lookup still misses.
    let retried = config.get_installation_by_version("9");
    let (state, action) = switch_step(state, SwitchEvent::ScanLookupDone(retried));
    assert_eq!(state_error(&state), Some(SwitchError::NotFound));
    assert!(matches!(action, SwitchAction::ShowHintsAndStop));
}
