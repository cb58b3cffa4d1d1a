use dev_env_helper::types::{
    SoftwareRecommendationsConfig, SoftwareCategory, SoftwareRecommendation,
    SoftwareInstallMethod,
};
use dev_env_helper::software::config::{get_default_config, merge_recommendations, validate_config};
use dev_env_helper::software::detection::{check_app_installed, detect_installed_software};
use dev_env_helper::installation::{is_cask_installed, parse_cask_list};

fn brew(cask: &str) -> SoftwareInstallMethod {
    SoftwareInstallMethod {
        method_type: "brew".to_string(),
        cask: Some(cask.to_string()),
        owner: None,
        repo: None,
        asset_pattern: None,
        url: None,
    }
}

fn github(owner: &str, repo: &str) -> SoftwareInstallMethod {
    SoftwareInstallMethod {
        method_type: "github".to_string(),
        cask: None,
        owner: Some(owner.to_string()),
        repo: Some(repo.to_string()),
        asset_pattern: None,
        url: None,
    }
}

fn entry(id: &str, name: &str, methods: Vec<SoftwareInstallMethod>) -> SoftwareRecommendation {
    SoftwareRecommendation {
        id: id.to_string(),
        name: name.to_string(),
        description: String::new(),
        category: "utilities".to_string(),
        emoji: "x".to_string(),
        install_methods: methods,
        installed: false,
    }
}

#[test]
fn default_config_is_wellformed() {
    let config = get_default_config();
    assert_eq!(config.categories.len(), 7);
    assert_eq!(config.software.len(), 36);
    assert!(validate_config(&config).is_ok());
    assert_eq!(config.software[0].id, "vscode");
    assert_eq!(config.software[0].category, "editors");
    assert_eq!(config.software[0].install_methods[0].cask.as_deref(), Some("visual-studio-code"));
}

#[test]
fn merge_replaces_a_stale_catalog_whole() {
    let existing = SoftwareRecommendationsConfig {
        categories: vec![],
        software: vec![
            entry("a", "A", vec![]),
            entry("b", "B", vec![]),
            entry("c", "C", vec![]),
        ],
    };
    let defaults = get_default_config();
    let merged = merge_recommendations(existing, get_default_config());
    assert_eq!(merged.software.len(), defaults.software.len());
    assert_eq!(merged.categories.len(), defaults.categories.len());
}

#[test]
fn merge_appends_only_missing_entries() {
    let existing = SoftwareRecommendationsConfig {
        categories: vec![SoftwareCategory {
            id: "mine".to_string(),
            name: "Mine".to_string(),
            emoji: "x".to_string(),
        }],
        software: vec![
            entry("vscode", "Visual Studio Code", vec![]),
            entry("one", "One", vec![]),
            entry("two", "Two", vec![]),
            entry("three", "Three", vec![]),
        ],
    };
    let merged = merge_recommendations(existing, get_default_config());
    // the categories stay as stored, the four stored entries stay first
    assert_eq!(merged.categories.len(), 1);
    assert_eq!(merged.software[0].id, "vscode");
    assert_eq!(merged.software.len(), 4 + 36 - 1);
    // the stored entry shadowed its default twin
    assert_eq!(merged.software.iter().filter(|s| s.id == "vscode").count(), 1);
}

#[test]
fn app_matching_ignores_case_and_needs_the_bundle_suffix() {
    let entries = vec![
        "Visual Studio Code.app".to_string(),
        "notes.txt".to_string(),
        "Slack.app".to_string(),
    ];
    assert!(check_app_installed("visual studio code", &entries));
    assert!(check_app_installed("SLACK", &entries));
    assert!(!check_app_installed("notes", &entries));
    assert!(!check_app_installed("Figma", &entries));
}

#[test]
fn software_detection_checks_casks_and_bundles() {
    let list = vec![
        entry("a", "Tool A", vec![brew("tool-a")]),
        entry("b", "Tool B", vec![brew("tool-b"), github("o", "b")]),
        entry("c", "Tool C", vec![github("o", "c")]),
        entry("d", "Tool D", vec![]),
    ];
    let casks = vec!["tool-a".to_string()];
    let apps = vec!["Tool B.app".to_string()];
    let out = detect_installed_software(list, &casks, &apps).unwrap();
    assert_eq!(
        out,
        vec![
            ("a".to_string(), true),
            ("b".to_string(), true),
            ("c".to_string(), false),
            ("d".to_string(), false),
        ]
    );
}

#[test]
fn cask_membership_is_exact() {
    let casks = vec!["alpha".to_string(), "beta".to_string()];
    assert!(is_cask_installed("alpha", &casks));
    assert!(!is_cask_installed("gamma", &casks));
}

#[test]
fn cask_listing_drops_blank_lines() {
    let parsed = parse_cask_list("alpha\nbeta\r\n\ngamma\n");
    assert_eq!(parsed, vec!["alpha", "beta", "gamma"]);
    assert!(parse_cask_list("").is_empty());
    assert!(parse_cask_list("\n\n").is_empty());
}
