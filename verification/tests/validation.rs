use dev_env_helper::types::{
    CliToolTemplate, ConfigFileLocation, ProxySettings, ProxyType, AppSettings,
    SoftwareRecommendationsConfig, SoftwareCategory, SoftwareRecommendation,
    SoftwareInstallMethod,
};
use dev_env_helper::storage::validate_template;
use dev_env_helper::settings::{
    get_default_settings, normalize_settings, get_proxy_env_var, validate_proxy_url,
};
use dev_env_helper::software::config::validate_config;

fn base_template() -> CliToolTemplate {
    CliToolTemplate {
        id: "tool".to_string(),
        name: "Tool".to_string(),
        executable: "tool".to_string(),
        version_command: "--version".to_string(),
        version_parser: "stdout".to_string(),
        config_files: vec![],
        install_methods: None,
        dependencies: None,
    }
}

#[test]
fn template_validation_accepts_a_wellformed_template() {
    assert!(validate_template(&base_template()).is_ok());
}

#[test]
fn template_validation_reports_each_defect() {
    let mut t = base_template();
    t.id = String::new();
    assert_eq!(validate_template(&t).unwrap_err(), "Template ID cannot be empty");

    let mut t = base_template();
    t.name = String::new();
    assert_eq!(validate_template(&t).unwrap_err(), "Template name cannot be empty");

    let mut t = base_template();
    t.executable = String::new();
    assert_eq!(validate_template(&t).unwrap_err(), "Executable cannot be empty");

    let mut t = base_template();
    t.executable = "usr/bin/tool".to_string();
    assert_eq!(
        validate_template(&t).unwrap_err(),
        "Executable should be a command name, not a path"
    );

    let mut t = base_template();
    t.version_parser = "both".to_string();
    assert_eq!(
        validate_template(&t).unwrap_err(),
        "version_parser must be 'stdout', 'stderr', or 'stdout-first-line'"
    );

    let mut t = base_template();
    t.config_files = vec![ConfigFileLocation { path: String::new(), description: "x".into() }];
    assert_eq!(validate_template(&t).unwrap_err(), "Config file path cannot be empty");

    let mut t = base_template();
    t.dependencies = Some(vec!["ok".to_string(), String::new()]);
    assert_eq!(validate_template(&t).unwrap_err(), "Dependency ID cannot be empty");
}

#[test]
fn template_validation_accepts_every_parser_mode() {
    for mode in ["stdout", "stderr", "stdout-first-line"] {
        let mut t = base_template();
        t.version_parser = mode.to_string();
        assert!(validate_template(&t).is_ok());
    }
}

#[test]
fn default_settings_are_unset() {
    let s = get_default_settings();
    assert!(s.download_path.is_none());
    assert!(s.default_editor.is_none());
    assert!(s.proxy.is_none());
    assert!(s.github_token.is_none());
}

#[test]
fn normalization_drops_empty_strings_only() {
    let s = AppSettings {
        download_path: Some(String::new()),
        default_editor: Some("/usr/bin/vi".to_string()),
        proxy: None,
        github_token: Some(String::new()),
    };
    let n = normalize_settings(s);
    assert!(n.download_path.is_none());
    assert_eq!(n.default_editor.as_deref(), Some("/usr/bin/vi"));
    // the token is stored as given, even when empty
    assert_eq!(n.github_token.as_deref(), Some(""));
}

#[test]
fn proxy_env_var_follows_type_and_enablement() {
    let mk = |t: ProxyType, enabled: bool| ProxySettings {
        enabled,
        proxy_type: t,
        url: "http://p:1".to_string(),
    };
    assert!(get_proxy_env_var(&mk(ProxyType::Http, false)).is_none());
    assert_eq!(
        get_proxy_env_var(&mk(ProxyType::Http, true)).unwrap(),
        ("HTTP_PROXY".to_string(), "http://p:1".to_string())
    );
    assert_eq!(get_proxy_env_var(&mk(ProxyType::Https, true)).unwrap().0, "HTTPS_PROXY");
    assert_eq!(get_proxy_env_var(&mk(ProxyType::Socks4, true)).unwrap().0, "ALL_PROXY");
    assert_eq!(get_proxy_env_var(&mk(ProxyType::Socks5, true)).unwrap().0, "ALL_PROXY");
}

#[test]
fn proxy_url_validation_accepts_wellformed_urls() {
    assert!(validate_proxy_url("http://proxy.local:8080", &ProxyType::Http).is_ok());
    assert!(validate_proxy_url("https://proxy.local:443", &ProxyType::Https).is_ok());
    assert!(validate_proxy_url("socks4://h:1080", &ProxyType::Socks4).is_ok());
    assert!(validate_proxy_url("socks5://h:1080", &ProxyType::Socks5).is_ok());
    // a plus sign and leading zeros are what a number parser accepts
    assert!(validate_proxy_url("http://h:+0080", &ProxyType::Http).is_ok());
}

#[test]
fn proxy_url_validation_reports_each_defect() {
    assert_eq!(
        validate_proxy_url("https://h:1", &ProxyType::Http).unwrap_err(),
        "Proxy URL must start with http:// for Http proxy type"
    );
    assert_eq!(
        validate_proxy_url("socks5://h:1", &ProxyType::Socks4).unwrap_err(),
        "Proxy URL must start with socks4:// for Socks4 proxy type"
    );
    assert_eq!(
        validate_proxy_url("http://", &ProxyType::Http).unwrap_err(),
        "Proxy URL must include host and port"
    );
    assert_eq!(
        validate_proxy_url("http://hostonly", &ProxyType::Http).unwrap_err(),
        "Proxy URL must include port (format: host:port)"
    );
    assert_eq!(
        validate_proxy_url("http://h:99999", &ProxyType::Http).unwrap_err(),
        "Proxy URL port must be a valid number (1-65535)"
    );
    assert_eq!(
        validate_proxy_url("http://h:12ab", &ProxyType::Http).unwrap_err(),
        "Proxy URL port must be a valid number (1-65535)"
    );
    assert_eq!(
        validate_proxy_url("http://h:", &ProxyType::Http).unwrap_err(),
        "Proxy URL port must be a valid number (1-65535)"
    );
}

fn cat(id: &str) -> SoftwareCategory {
    SoftwareCategory { id: id.to_string(), name: id.to_string(), emoji: "x".to_string() }
}

fn method(kind: &str) -> SoftwareInstallMethod {
    SoftwareInstallMethod {
        method_type: kind.to_string(),
        cask: if kind == "brew" { Some("c".to_string()) } else { None },
        owner: if kind == "github" { Some("o".to_string()) } else { None },
        repo: if kind == "github" { Some("r".to_string()) } else { None },
        asset_pattern: None,
        url: if kind == "website" { Some("https://x".to_string()) } else { None },
    }
}

fn sw(id: &str, category: &str, methods: Vec<SoftwareInstallMethod>) -> SoftwareRecommendation {
    SoftwareRecommendation {
        id: id.to_string(),
        name: id.to_string(),
        description: String::new(),
        category: category.to_string(),
        emoji: "x".to_string(),
        install_methods: methods,
        installed: false,
    }
}

#[test]
fn config_validation_accepts_a_wellformed_catalog() {
    let config = SoftwareRecommendationsConfig {
        categories: vec![cat("tools")],
        software: vec![
            sw("a", "tools", vec![method("brew")]),
            sw("b", "tools", vec![method("github"), method("website")]),
        ],
    };
    assert!(validate_config(&config).is_ok());
}

#[test]
fn config_validation_reports_each_defect() {
    let dup_cat = SoftwareRecommendationsConfig {
        categories: vec![cat("tools"), cat("tools")],
        software: vec![],
    };
    assert_eq!(validate_config(&dup_cat).unwrap_err(), "Duplicate category ID: tools");

    let dup_sw = SoftwareRecommendationsConfig {
        categories: vec![cat("tools")],
        software: vec![sw("a", "tools", vec![]), sw("a", "tools", vec![])],
    };
    assert_eq!(validate_config(&dup_sw).unwrap_err(), "Duplicate software ID: a");

    let bad_cat = SoftwareRecommendationsConfig {
        categories: vec![cat("tools")],
        software: vec![sw("a", "games", vec![])],
    };
    assert_eq!(
        validate_config(&bad_cat).unwrap_err(),
        "Software 'a' references unknown category 'games'"
    );

    let mut m = method("brew");
    m.cask = None;
    let no_cask = SoftwareRecommendationsConfig {
        categories: vec![cat("tools")],
        software: vec![sw("a", "tools", vec![m])],
    };
    assert_eq!(
        validate_config(&no_cask).unwrap_err(),
        "Software 'a' has brew install method without cask name"
    );

    let mut m = method("github");
    m.repo = None;
    let no_repo = SoftwareRecommendationsConfig {
        categories: vec![cat("tools")],
        software: vec![sw("a", "tools", vec![m])],
    };
    assert_eq!(
        validate_config(&no_repo).unwrap_err(),
        "Software 'a' has github install method without owner/repo"
    );

    let mut m = method("website");
    m.url = None;
    let no_url = SoftwareRecommendationsConfig {
        categories: vec![cat("tools")],
        software: vec![sw("a", "tools", vec![m])],
    };
    assert_eq!(
        validate_config(&no_url).unwrap_err(),
        "Software 'a' has website install method without url"
    );

    let odd = SoftwareRecommendationsConfig {
        categories: vec![cat("tools")],
        software: vec![sw("a", "tools", vec![method("telepathy")])],
    };
    assert_eq!(
        validate_config(&odd).unwrap_err(),
        "Software 'a' has unknown install method type: telepathy"
    );
}
