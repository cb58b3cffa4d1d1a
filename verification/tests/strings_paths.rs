use dev_env_helper::detection::{expand_path, installed_ids_of};
use dev_env_helper::types::{CliToolDetection, GitHubReleaseInfo, GitHubReleaseAsset};
use dev_env_helper::release::{filter_release_assets, normalize_download_url, tag_from_href};
use dev_env_helper::paths::{get_config_dir, get_settings_path, get_template_path, get_cache_path};

#[test]
fn path_expansion_handles_tilde_and_home_variable() {
    assert_eq!(expand_path("~/notes.txt", Some("/home/u")), "/home/u/notes.txt");
    assert_eq!(expand_path("$HOME/a/$HOME", Some("/h")), "/h/a//h");
    assert_eq!(expand_path("/etc/hosts", Some("/h")), "/etc/hosts");
    assert_eq!(expand_path("~/x", None), "~/x");
    assert_eq!(expand_path("$HOME/x", None), "$HOME/x");
}

fn detection(id: &str, installed: bool) -> CliToolDetection {
    CliToolDetection {
        template_id: id.to_string(),
        installed,
        version: None,
        executable_path: None,
        config_files: vec![],
        detected_at: String::new(),
    }
}

#[test]
fn installed_set_takes_only_installed_detections() {
    let ds = vec![detection("a", true), detection("b", false), detection("c", true)];
    assert_eq!(installed_ids_of(&ds), vec!["a".to_string(), "c".to_string()]);
}

fn release(assets: Vec<&str>) -> GitHubReleaseInfo {
    GitHubReleaseInfo {
        tag_name: "v1.0".to_string(),
        name: Some("v1.0".to_string()),
        assets: assets
            .iter()
            .map(|n| GitHubReleaseAsset {
                name: n.to_string(),
                browser_download_url: format!("https://example.invalid/{}", n),
                size: 1,
            })
            .collect(),
        published_at: String::new(),
    }
}

#[test]
fn asset_filtering_keeps_only_matching_names() {
    let r = filter_release_assets(release(vec!["a.zip", "a.tar.gz", "b.zip"]), Some(".*\\.zip$"))
        .unwrap();
    assert_eq!(r.assets.len(), 2);
    assert_eq!(r.assets[0].name, "a.zip");
    assert_eq!(r.assets[1].name, "b.zip");
    assert_eq!(r.tag_name, "v1.0");
}

#[test]
fn asset_filtering_without_pattern_is_identity() {
    let r = filter_release_assets(release(vec!["a", "b"]), None).unwrap();
    assert_eq!(r.assets.len(), 2);
}

#[test]
fn asset_filtering_reports_bad_patterns_and_empty_results() {
    let err = filter_release_assets(release(vec!["a"]), Some("(")).unwrap_err();
    assert!(err.starts_with("Invalid asset pattern regex: "));
    let err = filter_release_assets(release(vec!["a"]), Some("zzz")).unwrap_err();
    assert_eq!(err, "No assets found matching pattern: zzz");
}

#[test]
fn download_urls_are_rooted_at_the_site_when_relative() {
    assert_eq!(normalize_download_url("https://x/y"), "https://x/y");
    assert_eq!(
        normalize_download_url("/o/r/releases/download/v1/a.zip"),
        "https://github.com/o/r/releases/download/v1/a.zip"
    );
}

#[test]
fn tags_and_filenames_come_after_the_last_slash() {
    assert_eq!(tag_from_href("/o/r/releases/tag/v2.1"), "v2.1");
    assert_eq!(tag_from_href("plain"), "plain");
}

#[test]
fn computed_paths_end_with_their_wellknown_names() {
    match get_config_dir() {
        Ok(d) => assert!(d.ends_with("/dev-env-helper")),
        Err(e) => assert_eq!(e, "Failed to find config directory"),
    }
    match get_settings_path() {
        Ok(p) => assert!(p.ends_with("/dev-env-helper/settings.json")),
        Err(e) => assert_eq!(e, "Failed to find config directory"),
    }
    match get_template_path("mytool") {
        Ok(p) => assert!(p.ends_with("/custom-templates/mytool.json")),
        Err(e) => assert_eq!(e, "Failed to find config directory"),
    }
    match get_cache_path("owner", "repo") {
        Ok(p) => assert!(p.ends_with("/github-releases/owner_repo.json")),
        Err(e) => assert_eq!(e, "Failed to find cache directory"),
    }
}
