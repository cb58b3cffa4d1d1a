//! Where the application keeps its files: settings, custom templates, the
//! software catalog and the release cache. Paths are computed here; the
//! caller creates directories and reads or writes the files.
use vstd::prelude::*;
use vstd::string::StringExecFns;

verus! {

/// Relies on dirs::config_dir for the platform's configuration directory;
/// the result depends on the environment, so nothing is promised of it.
#[verifier::external_body]
fn config_base_dir() -> (r: Option<String>)
{
    dirs::config_dir().map(|p| p.to_string_lossy().into_owned())
}

/// Relies on dirs::cache_dir for the platform's cache directory; the
/// result depends on the environment, so nothing is promised of it.
#[verifier::external_body]
fn cache_base_dir() -> (r: Option<String>)
{
    dirs::cache_dir().map(|p| p.to_string_lossy().into_owned())
}

/// The application's directory under a configuration base.
pub fn config_dir_under(base: &str) -> (r: String)
    ensures
        r@ == base@ + "/dev-env-helper"@,
{
    let mut dir = base.to_owned();
    dir.append("/dev-env-helper");
    dir
}

/// The application's configuration directory, or the exact report when the
/// platform offers none.
pub fn get_config_dir() -> (r: Result<String, String>)
    ensures
        match r {
            Ok(d) => exists|base: Seq<char>| d@ == base + "/dev-env-helper"@,
            Err(m) => m@ == "Failed to find config directory"@,
        },
{
    match config_base_dir() {
        Some(base) => {
            let d = config_dir_under(base.as_str());
            proof {
                assert(d@ == base@ + "/dev-env-helper"@);
            }
            Ok(d)
        },
        None => Err("Failed to find config directory".to_owned()),
    }
}

/// The settings file inside a configuration directory.
pub fn settings_path_under(config_dir: &str) -> (r: String)
    ensures
        r@ == config_dir@ + "/settings.json"@,
{
    let mut p = config_dir.to_owned();
    p.append("/settings.json");
    p
}

/// The path of the settings file.
pub fn get_settings_path() -> (r: Result<String, String>)
    ensures
        match r {
            Ok(p) => exists|base: Seq<char>|
                p@ == base + "/dev-env-helper"@ + "/settings.json"@,
            Err(m) => m@ == "Failed to find config directory"@,
        },
{
    match get_config_dir() {
        Ok(dir) => Ok(settings_path_under(dir.as_str())),
        Err(m) => Err(m),
    }
}

/// The directory that holds custom templates, under a configuration
/// directory.
pub fn custom_templates_dir_under(config_dir: &str) -> (r: String)
    ensures
        r@ == config_dir@ + "/custom-templates"@,
{
    let mut p = config_dir.to_owned();
    p.append("/custom-templates");
    p
}

/// The file a custom template with the given id is stored in.
pub fn get_template_path(id: &str) -> (r: Result<String, String>)
    ensures
        match r {
            Ok(p) => exists|base: Seq<char>|
                p@ == base + "/dev-env-helper"@ + "/custom-templates"@ + "/"@ + id@ + ".json"@,
            Err(m) => m@ == "Failed to find config directory"@,
        },
{
    match get_config_dir() {
        Ok(dir) => {
            let mut p = custom_templates_dir_under(dir.as_str());
            p.append("/");
            p.append(id);
            p.append(".json");
            Ok(p)
        },
        Err(m) => Err(m),
    }
}

/// The path of the software recommendations file.
pub fn get_config_path() -> (r: Result<String, String>)
    ensures
        match r {
            Ok(p) => exists|base: Seq<char>|
                p@ == base + "/dev-env-helper"@ + "/software-recommendations.json"@,
            Err(m) => m@ == "Failed to find config directory"@,
        },
{
    match get_config_dir() {
        Ok(dir) => {
            let mut p = dir;
            p.append("/software-recommendations.json");
            Ok(p)
        },
        Err(m) => Err(m),
    }
}

/// The directory that caches fetched release descriptions.
pub fn get_cache_dir() -> (r: Result<String, String>)
    ensures
        match r {
            Ok(d) => exists|base: Seq<char>| d@ == base + "/dev-env-helper/github-releases"@,
            Err(m) => m@ == "Failed to find cache directory"@,
        },
{
    match cache_base_dir() {
        Some(base) => {
            let mut d = base;
            d.append("/dev-env-helper/github-releases");
            Ok(d)
        },
        None => Err("Failed to find cache directory".to_owned()),
    }
}

/// The cache file for a repository's latest release.
pub fn get_cache_path(owner: &str, repo: &str) -> (r: Result<String, String>)
    ensures
        match r {
            Ok(p) => exists|base: Seq<char>|
                p@ == base + "/dev-env-helper/github-releases"@ + "/"@ + owner@ + "_"@ + repo@
                    + ".json"@,
            Err(m) => m@ == "Failed to find cache directory"@,
        },
{
    match get_cache_dir() {
        Ok(dir) => {
            let mut p = dir;
            p.append("/");
            p.append(owner);
            p.append("_");
            p.append(repo);
            p.append(".json");
            Ok(p)
        },
        Err(m) => Err(m),
    }
}

} // verus!
