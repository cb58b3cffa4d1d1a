use vstd::prelude::*;

verus! {

/// Catalog entry describing one installable command-line tool: how to detect
/// it, how to install it, and which other tools it depends on.
#[derive(Debug, Clone)]
pub struct CliToolTemplate {
    pub id: String,
    pub name: String,
    pub executable: String,
    pub version_command: String,
    pub version_parser: String,
    pub config_files: Vec<ConfigFileLocation>,
    pub install_methods: Option<Vec<InstallMethod>>,
    pub dependencies: Option<Vec<String>>,
}

/// One way of installing a tool: a brew cask or formula (optionally from a
/// tap), a dmg download, or a sequence of shell commands.
#[derive(Debug, Clone)]
pub struct InstallMethod {
    pub method_type: String,
    pub brew_cask_name: Option<String>,
    pub brew_formula_name: Option<String>,
    pub brew_tap: Option<String>,
    pub dmg_url: Option<String>,
    pub dmg_install_steps: Option<Vec<String>>,
    pub script_commands: Option<Vec<String>>,
}

/// A configuration file a tool is known to read, with a short description.
#[derive(Debug, Clone)]
pub struct ConfigFileLocation {
    pub path: String,
    pub description: String,
}

/// Result of probing the machine for one tool.
#[derive(Debug, Clone)]
pub struct CliToolDetection {
    pub template_id: String,
    pub installed: bool,
    pub version: Option<String>,
    pub executable_path: Option<String>,
    pub config_files: Vec<ConfigFileStatus>,
    pub detected_at: String,
}

/// Presence and readability of one configuration file.
#[derive(Debug, Clone)]
pub struct ConfigFileStatus {
    pub path: String,
    pub exists: bool,
    pub can_read: bool,
}

/// One node of a dependency tree: a tool, whether it is installed, and its
/// expanded dependencies in declaration order.
#[derive(Debug)]
pub struct DependencyNode {
    pub tool_id: String,
    pub name: String,
    pub installed: bool,
    pub dependencies: Vec<DependencyNode>,
}

/// A fully expanded dependency tree with visit counts.
#[derive(Debug)]
pub struct DependencyTree {
    pub root: DependencyNode,
    pub total_tools: usize,
    pub installed_count: usize,
    pub missing_count: usize,
}

/// A snapshot of the machine's tool environment, for export and import.
#[derive(Debug, Clone)]
pub struct EnvironmentExport {
    pub schema_version: String,
    pub exported_at: String,
    pub hostname: Option<String>,
    pub tools: Vec<CliToolDetection>,
    pub custom_templates: Vec<CliToolTemplate>,
    pub software: Option<Vec<SoftwareRecommendation>>,
}

/// A category that software recommendations are grouped under.
#[derive(Debug, Clone)]
pub struct SoftwareCategory {
    pub id: String,
    pub name: String,
    pub emoji: String,
}

/// One way of installing a recommended application.
#[derive(Debug, Clone)]
pub struct SoftwareInstallMethod {
    pub method_type: String,
    pub cask: Option<String>,
    pub owner: Option<String>,
    pub repo: Option<String>,
    pub asset_pattern: Option<String>,
    pub url: Option<String>,
}

/// A recommended desktop application.
#[derive(Debug, Clone)]
pub struct SoftwareRecommendation {
    pub id: String,
    pub name: String,
    pub description: String,
    pub category: String,
    pub emoji: String,
    pub install_methods: Vec<SoftwareInstallMethod>,
    pub installed: bool,
}

/// The software recommendation catalog: categories plus entries.
#[derive(Debug, Clone)]
pub struct SoftwareRecommendationsConfig {
    pub categories: Vec<SoftwareCategory>,
    pub software: Vec<SoftwareRecommendation>,
}

/// One downloadable asset of a GitHub release.
#[derive(Debug, Clone)]
pub struct GitHubReleaseAsset {
    pub name: String,
    pub browser_download_url: String,
    pub size: u64,
}

/// A GitHub release with its assets.
#[derive(Debug, Clone)]
pub struct GitHubReleaseInfo {
    pub tag_name: String,
    pub name: Option<String>,
    pub assets: Vec<GitHubReleaseAsset>,
    pub published_at: String,
}

/// User-adjustable application settings.
#[derive(Debug, Clone)]
pub struct AppSettings {
    pub download_path: Option<String>,
    pub default_editor: Option<String>,
    pub proxy: Option<ProxySettings>,
    pub github_token: Option<String>,
}

/// Proxy configuration for outbound requests.
#[derive(Debug, Clone)]
pub struct ProxySettings {
    pub enabled: bool,
    pub proxy_type: ProxyType,
    pub url: String,
}

/// Supported proxy protocols.
#[derive(Debug, Clone, PartialEq, Eq, Structural)]
pub enum ProxyType {
    Http,
    Https,
    Socks4,
    Socks5,
}

/// Progress events emitted while a brew installation runs.
#[derive(Debug, Clone)]
pub enum BrewInstallEvent {
    Status { message: String },
    Output { line: String },
    Success { message: String },
    Error { message: String },
}

/// Progress events emitted while a script installation runs.
#[derive(Debug, Clone)]
pub enum ScriptInstallEvent {
    Status { message: String },
    Output { line: String },
    Success { message: String },
    Error { message: String },
}

/// The dependency ids a template declares, as a sequence of character
/// sequences; an absent list is the empty sequence.
pub open spec fn spec_deps(t: CliToolTemplate) -> Seq<Seq<char>> {
    match t.dependencies {
        Some(ds) => ds.deep_view(),
        None => Seq::empty(),
    }
}

} // verus!
