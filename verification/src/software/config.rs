//! The software recommendation catalog: structural validation, merging of
//! stored and default entries, and the default catalog itself.
use vstd::prelude::*;
use vstd::string::StringExecFns;
use crate::types::{SoftwareRecommendationsConfig, SoftwareCategory, SoftwareRecommendation,
    SoftwareInstallMethod};
use crate::text::str_eq;

verus! {

// ---------------------------------------------------------------------------
// Validation
// ---------------------------------------------------------------------------

/// The first duplicate among the categories from position `i` on, with its
/// exact report.
pub open spec fn cat_issue(cats: Seq<SoftwareCategory>, i: int) -> Option<Seq<char>>
    decreases cats.len() - i,
{
    if !(0 <= i < cats.len()) {
        None
    } else if exists|j: int| 0 <= j < i && (#[trigger] cats[j]).id@ == cats[i].id@ {
        Some("Duplicate category ID: "@ + cats[i].id@)
    } else {
        cat_issue(cats, i + 1)
    }
}

/// The first ill-formed install method of one entry from position `j` on,
/// with its exact report.
pub open spec fn method_issue(sw: SoftwareRecommendation, j: int) -> Option<Seq<char>>
    decreases sw.install_methods@.len() - j,
{
    if !(0 <= j < sw.install_methods@.len()) {
        None
    } else {
        let m = sw.install_methods@[j];
        if m.method_type@ == "brew"@ {
            if m.cask is None {
                Some("Software '"@ + sw.id@ + "' has brew install method without cask name"@)
            } else {
                method_issue(sw, j + 1)
            }
        } else if m.method_type@ == "github"@ {
            if m.owner is None || m.repo is None {
                Some("Software '"@ + sw.id@ + "' has github install method without owner/repo"@)
            } else {
                method_issue(sw, j + 1)
            }
        } else if m.method_type@ == "website"@ {
            if m.url is None {
                Some("Software '"@ + sw.id@ + "' has website install method without url"@)
            } else {
                method_issue(sw, j + 1)
            }
        } else {
            Some(
                "Software '"@ + sw.id@ + "' has unknown install method type: "@ + m.method_type@,
            )
        }
    }
}

/// The first problem among the software entries from position `i` on, with
/// its exact report.
pub open spec fn soft_issue(c: SoftwareRecommendationsConfig, i: int) -> Option<Seq<char>>
    decreases c.software@.len() - i,
{
    if !(0 <= i < c.software@.len()) {
        None
    } else {
        let sw = c.software@[i];
        if exists|j: int| 0 <= j < i && (#[trigger] c.software@[j]).id@ == sw.id@ {
            Some("Duplicate software ID: "@ + sw.id@)
        } else if !(exists|j: int|
            0 <= j < c.categories@.len() && (#[trigger] c.categories@[j]).id@ == sw.category@) {
            Some(
                "Software '"@ + sw.id@ + "' references unknown category '"@ + sw.category@ + "'"@,
            )
        } else {
            match method_issue(sw, 0) {
                Some(m) => Some(m),
                None => soft_issue(c, i + 1),
            }
        }
    }
}

/// The first problem of the whole catalog, with its exact report; `None`
/// for a well-formed catalog.
pub open spec fn config_issue(c: SoftwareRecommendationsConfig) -> Option<Seq<char>> {
    match cat_issue(c.categories@, 0) {
        Some(m) => Some(m),
        None => soft_issue(c, 0),
    }
}

/// Whether one of the first `upto` categories carries the given id.
fn cat_id_among(cats: &Vec<SoftwareCategory>, upto: usize, id: &str) -> (b: bool)
    requires
        upto as int <= cats@.len(),
    ensures
        b == exists|j: int| 0 <= j < upto && (#[trigger] cats@[j]).id@ == id@,
{
    for j in 0..upto
        invariant
            upto as int <= cats@.len(),
            forall|jj: int| 0 <= jj < j ==> (#[trigger] cats@[jj]).id@ != id@,
    {
        if str_eq(cats[j].id.as_str(), id) {
            assert(cats@[j as int].id@ == id@);
            return true;
        }
    }
    proof {
        if exists|j: int| 0 <= j < upto && (#[trigger] cats@[j]).id@ == id@ {
            let j = choose|j: int| 0 <= j < upto && (#[trigger] cats@[j]).id@ == id@;
        }
    }
    false
}

/// Whether one of the first `upto` software entries carries the given id.
fn sw_id_among(sws: &Vec<SoftwareRecommendation>, upto: usize, id: &str) -> (b: bool)
    requires
        upto as int <= sws@.len(),
    ensures
        b == exists|j: int| 0 <= j < upto && (#[trigger] sws@[j]).id@ == id@,
{
    for j in 0..upto
        invariant
            upto as int <= sws@.len(),
            forall|jj: int| 0 <= jj < j ==> (#[trigger] sws@[jj]).id@ != id@,
    {
        if str_eq(sws[j].id.as_str(), id) {
            assert(sws@[j as int].id@ == id@);
            return true;
        }
    }
    proof {
        if exists|j: int| 0 <= j < upto && (#[trigger] sws@[j]).id@ == id@ {
            let j = choose|j: int| 0 <= j < upto && (#[trigger] sws@[j]).id@ == id@;
        }
    }
    false
}

/// Validate the catalog: category ids unique, software ids unique, every
/// category reference known, every install method carrying the fields its
/// kind needs. Returns exactly the first problem found.
pub fn validate_config(config: &SoftwareRecommendationsConfig) -> (r: Result<(), String>)
    ensures
        match r {
            Ok(()) => config_issue(*config) is None,
            Err(m) => config_issue(*config) == Some(m@),
        },
{
    let cl = config.categories.len();
    for i in 0..cl
        invariant
            cl == config.categories@.len(),
            cat_issue(config.categories@, 0) == cat_issue(config.categories@, i as int),
    {
        if cat_id_among(&config.categories, i, config.categories[i].id.as_str()) {
            let mut m = "Duplicate category ID: ".to_owned();
            m.append(config.categories[i].id.as_str());
            proof {
                assert(cat_issue(config.categories@, i as int) == Some(
                    "Duplicate category ID: "@ + config.categories@[i as int].id@,
                ));
            }
            return Err(m);
        }
    }
    proof {
        assert(cat_issue(config.categories@, cl as int) is None);
    }
    let sl = config.software.len();
    for i in 0..sl
        invariant
            sl == config.software@.len(),
            cat_issue(config.categories@, 0) is None,
            soft_issue(*config, 0) == soft_issue(*config, i as int),
    {
        let sw = &config.software[i];
        if sw_id_among(&config.software, i, sw.id.as_str()) {
            let mut m = "Duplicate software ID: ".to_owned();
            m.append(sw.id.as_str());
            return Err(m);
        }
        if !cat_id_among(&config.categories, config.categories.len(), sw.category.as_str()) {
            let mut m = "Software '".to_owned();
            m.append(sw.id.as_str());
            m.append("' references unknown category '");
            m.append(sw.category.as_str());
            m.append("'");
            return Err(m);
        }
        let ml = sw.install_methods.len();
        for j in 0..ml
            invariant
                sl == config.software@.len(),
                i < sl,
                sw == &config.software@[i as int],
                ml == sw.install_methods@.len(),
                cat_issue(config.categories@, 0) is None,
                soft_issue(*config, 0) == soft_issue(*config, i as int),
                !(exists|jj: int|
                    0 <= jj < i && (#[trigger] config.software@[jj]).id@ == sw.id@),
                exists|jj: int|
                    0 <= jj < config.categories@.len() && (#[trigger] config.categories@[jj]).id@
                        == sw.category@,
                method_issue(*sw, 0) == method_issue(*sw, j as int),
        {
            let m = &sw.install_methods[j];
            proof {
                reveal_strlit("brew");
                reveal_strlit("github");
                reveal_strlit("website");
            }
            if str_eq(m.method_type.as_str(), "brew") {
                if m.cask.is_none() {
                    let mut msg = "Software '".to_owned();
                    msg.append(sw.id.as_str());
                    msg.append("' has brew install method without cask name");
                    return Err(msg);
                }
            } else if str_eq(m.method_type.as_str(), "github") {
                if m.owner.is_none() || m.repo.is_none() {
                    let mut msg = "Software '".to_owned();
                    msg.append(sw.id.as_str());
                    msg.append("' has github install method without owner/repo");
                    return Err(msg);
                }
            } else if str_eq(m.method_type.as_str(), "website") {
                if m.url.is_none() {
                    let mut msg = "Software '".to_owned();
                    msg.append(sw.id.as_str());
                    msg.append("' has website install method without url");
                    return Err(msg);
                }
            } else {
                let mut msg = "Software '".to_owned();
                msg.append(sw.id.as_str());
                msg.append("' has unknown install method type: ");
                msg.append(m.method_type.as_str());
                return Err(msg);
            }
        }
        proof {
            assert(method_issue(config.software@[i as int], ml as int) is None);
            assert(soft_issue(*config, i as int) == soft_issue(*config, i + 1));
        }
    }
    proof {
        assert(soft_issue(*config, sl as int) is None);
    }
    Ok(())
}

// ---------------------------------------------------------------------------
// Merging stored entries with the defaults
// ---------------------------------------------------------------------------

/// Whether a list of software entries carries the given id.
pub open spec fn has_sw_id(sws: Seq<SoftwareRecommendation>, id: Seq<char>) -> bool {
    exists|j: int| 0 <= j < sws.len() && (#[trigger] sws[j]).id@ == id
}

/// Merge a stored catalog with the defaults: a stored catalog with at most
/// three entries is taken for stale and replaced whole; otherwise every
/// default entry whose id the stored catalog lacks is appended.
pub fn merge_recommendations(
    existing: SoftwareRecommendationsConfig,
    defaults: SoftwareRecommendationsConfig,
) -> (r: SoftwareRecommendationsConfig)
    ensures
        existing.software@.len() <= 3 ==> r == defaults,
        existing.software@.len() > 3 ==> r.categories == existing.categories && r.software@
            == existing.software@ + defaults.software@.filter(
            |s: SoftwareRecommendation| !has_sw_id(existing.software@, s.id@),
        ),
{
    let ghost pred = |s: SoftwareRecommendation| !has_sw_id(existing.software@, s.id@);
    if existing.software.len() <= 3 {
        return defaults;
    }
    let ghost existing_sw = existing.software@;
    let existing_len = existing.software.len();
    let SoftwareRecommendationsConfig { categories, software } = existing;
    let mut software = software;
    let mut incoming = defaults.software;
    let orig_len = incoming.len();
    let ghost orig = incoming@;
    proof {
        assert(orig.take(0) =~= Seq::<SoftwareRecommendation>::empty());
        assert(orig.take(0).filter(pred) =~= Seq::<SoftwareRecommendation>::empty());
        assert(software@ =~= existing_sw + orig.take(0).filter(pred));
    }
    let mut q_exec: usize = 0;
    while incoming.len() > 0
        invariant
            orig.len() == orig_len,
            0 <= q_exec as int <= orig.len(),
            incoming@ == orig.skip(q_exec as int),
            existing_len == existing_sw.len(),
            pred == (|s: SoftwareRecommendation| !has_sw_id(existing_sw, s.id@)),
            software@ == existing_sw + orig.take(q_exec as int).filter(pred),
            forall|j: int| 0 <= j < existing_len ==> software@[j] == existing_sw[j],
        decreases incoming@.len(),
    {
        let s = incoming.remove(0);
        proof {
            assert(s == orig.skip(q_exec as int)[0]);
            assert(s == orig[q_exec as int]);
            assert(incoming@ =~= orig.skip(q_exec as int + 1));
        }
        let ghost old_sw = software@;
        let fresh = !sw_id_among(&software, existing_len, s.id.as_str());
        proof {
            assert(fresh == pred(orig[q_exec as int])) by {
                assert forall|j: int| 0 <= j < existing_len implies ((
                #[trigger] software@[j]).id@ == s.id@ <==> existing_sw[j].id@ == s.id@) by {
                    assert(software@[j] == existing_sw[j]);
                }
                if has_sw_id(existing_sw, s.id@) {
                    let j = choose|j: int|
                        0 <= j < existing_sw.len() && (#[trigger] existing_sw[j]).id@ == s.id@;
                    assert(software@[j].id@ == s.id@);
                }
            }
        }
        if fresh {
            software.push(s);
        }
        proof {
            let prefix = orig.take(q_exec as int);
            assert(orig.take(q_exec as int + 1) =~= prefix.push(orig[q_exec as int]));
            prefix.lemma_filter_push(orig[q_exec as int], pred);
            if fresh {
                assert(software@ =~= existing_sw + orig.take(q_exec as int + 1).filter(pred));
            } else {
                assert(software@ =~= existing_sw + orig.take(q_exec as int + 1).filter(pred));
            }
        }
        q_exec = q_exec + 1;
    }
    proof {
        assert(orig.take(q_exec as int) =~= orig);
    }
    SoftwareRecommendationsConfig { categories, software }
}

// ---------------------------------------------------------------------------
// The default catalog
// ---------------------------------------------------------------------------

/// The ids of the default categories, in catalog order.
pub open spec fn default_category_ids() -> Seq<Seq<char>> {
    seq![
        "editors"@,
        "terminals"@,
        "version-control"@,
        "utilities"@,
        "productivity"@,
        "databases"@,
        "api-tools"@
    ]
}

/// The ids of the default software entries, in catalog order.
pub open spec fn default_software_ids() -> Seq<Seq<char>> {
    seq![
        "vscode"@,
        "iterm2"@,
        "github-cli"@,
        "raycast"@,
        "rectangle"@,
        "docker"@,
        "postman"@,
        "insomnia"@,
        "tableplus"@,
        "warp"@,
        "wezterm"@,
        "cursor"@,
        "sublime-text"@,
        "notion"@,
        "obsidian"@,
        "figma"@,
        "slack"@,
        "discord"@,
        "lazygit"@,
        "aerospace"@,
        "cc-switch"@,
        "doubao"@,
        "netease-music"@,
        "tencent-lemon"@,
        "ibar"@,
        "antigravity"@,
        "cherry-studio"@,
        "flclash"@,
        "ihosts"@,
        "autoglm"@,
        "google-chrome"@,
        "rar-extractor"@,
        "wechat"@,
        "ima-copilot"@,
        "barrier"@,
        "microsoft-todo"@
    ]
}

/// The category each default software entry belongs to, in catalog order.
pub open spec fn default_software_categories() -> Seq<Seq<char>> {
    seq![
        "editors"@,
        "terminals"@,
        "version-control"@,
        "productivity"@,
        "utilities"@,
        "utilities"@,
        "api-tools"@,
        "api-tools"@,
        "databases"@,
        "terminals"@,
        "terminals"@,
        "editors"@,
        "editors"@,
        "productivity"@,
        "productivity"@,
        "utilities"@,
        "productivity"@,
        "productivity"@,
        "version-control"@,
        "utilities"@,
        "utilities"@,
        "productivity"@,
        "productivity"@,
        "utilities"@,
        "utilities"@,
        "utilities"@,
        "utilities"@,
        "utilities"@,
        "utilities"@,
        "utilities"@,
        "utilities"@,
        "utilities"@,
        "productivity"@,
        "utilities"@,
        "utilities"@,
        "productivity"@
    ]
}

/// The display names of the default software entries, in catalog order.
pub open spec fn default_software_names() -> Seq<Seq<char>> {
    seq![
        "Visual Studio Code"@,
        "iTerm2"@,
        "GitHub CLI"@,
        "Raycast"@,
        "Rectangle"@,
        "Docker Desktop"@,
        "Postman"@,
        "Insomnia"@,
        "TablePlus"@,
        "Warp"@,
        "WezTerm"@,
        "Cursor"@,
        "Sublime Text"@,
        "Notion"@,
        "Obsidian"@,
        "Figma"@,
        "Slack"@,
        "Discord"@,
        "LazyGit"@,
        "Aerospace"@,
        "CC Switch"@,
        "Doubao"@,
        "Netease Music"@,
        "Tencent Lemon"@,
        "iBar"@,
        "Antigravity"@,
        "Cherry Studio"@,
        "FlClash"@,
        "iHosts"@,
        "AutoGLM"@,
        "Google Chrome"@,
        "RAR Extractor - Unarchiver"@,
        "WeChat"@,
        "ima.copilot"@,
        "Barrier"@,
        "Microsoft To Do"@
    ]
}

/// An install method carries the fields its kind needs.
pub open spec fn valid_method(m: SoftwareInstallMethod) -> bool {
    ||| (m.method_type@ == "brew"@ && m.cask is Some)
    ||| (m.method_type@ == "github"@ && m.owner is Some && m.repo is Some)
    ||| (m.method_type@ == "website"@ && m.url is Some)
}

fn brew_sw_method(cask: &str) -> (m: SoftwareInstallMethod)
    ensures
        m.method_type@ == "brew"@,
        m.cask matches Some(c) && c@ == cask@,
        valid_method(m),
{
    SoftwareInstallMethod {
        method_type: "brew".to_owned(),
        cask: Some(cask.to_owned()),
        owner: None,
        repo: None,
        asset_pattern: None,
        url: None,
    }
}

fn github_sw_method(owner: &str, repo: &str, asset_pattern: &str) -> (m: SoftwareInstallMethod)
    ensures
        m.method_type@ == "github"@,
        m.owner matches Some(o) && o@ == owner@,
        m.repo matches Some(r2) && r2@ == repo@,
        valid_method(m),
{
    SoftwareInstallMethod {
        method_type: "github".to_owned(),
        cask: None,
        owner: Some(owner.to_owned()),
        repo: Some(repo.to_owned()),
        asset_pattern: Some(asset_pattern.to_owned()),
        url: None,
    }
}

fn website_sw_method(url: &str) -> (m: SoftwareInstallMethod)
    ensures
        m.method_type@ == "website"@,
        m.url matches Some(u) && u@ == url@,
        valid_method(m),
{
    SoftwareInstallMethod {
        method_type: "website".to_owned(),
        cask: None,
        owner: None,
        repo: None,
        asset_pattern: None,
        url: Some(url.to_owned()),
    }
}

fn sw_category(id: &str, name: &str, emoji: &str) -> (c: SoftwareCategory)
    ensures
        c.id@ == id@,
        c.name@ == name@,
{
    SoftwareCategory { id: id.to_owned(), name: name.to_owned(), emoji: emoji.to_owned() }
}

fn sw_entry(
    id: &str,
    name: &str,
    description: &str,
    category: &str,
    emoji: &str,
    install_methods: Vec<SoftwareInstallMethod>,
) -> (s: SoftwareRecommendation)
    ensures
        s.id@ == id@,
        s.name@ == name@,
        s.category@ == category@,
        s.installed == false,
        s.install_methods == install_methods,
{
    SoftwareRecommendation {
        id: id.to_owned(),
        name: name.to_owned(),
        description: description.to_owned(),
        category: category.to_owned(),
        emoji: emoji.to_owned(),
        install_methods,
        installed: false,
    }
}

/// The default software recommendation catalog.
#[verifier::rlimit(100)]
pub fn get_default_config() -> (r: SoftwareRecommendationsConfig)
    ensures
        r.categories@.len() == default_category_ids().len(),
        forall|k: int|
            0 <= k < r.categories@.len() ==> (#[trigger] r.categories@[k]).id@
                == default_category_ids()[k],
        r.software@.len() == default_software_ids().len(),
        forall|k: int|
            0 <= k < r.software@.len() ==> (#[trigger] r.software@[k]).id@
                == default_software_ids()[k] && r.software@[k].name@ == default_software_names()[k]
                && r.software@[k].category@ == default_software_categories()[k]
                && r.software@[k].installed == false && r.software@[k].install_methods@.len() >= 1
                && forall|j: int|
                0 <= j < r.software@[k].install_methods@.len() ==> valid_method(
                    #[trigger] r.software@[k].install_methods@[j],
                ),
{
    let categories: Vec<SoftwareCategory> = vec![
        sw_category("editors", "Code Editors", "📝"),
        sw_category("terminals", "Terminals", "💻"),
        sw_category("version-control", "Version Control", "🔀"),
        sw_category("utilities", "Utilities", "🛠️"),
        sw_category("productivity", "Productivity", "⚡"),
        sw_category("databases", "Databases", "🗄️"),
        sw_category("api-tools", "API Tools", "🔌")
    ];
    let software: Vec<SoftwareRecommendation> = vec![
        sw_entry(
            "vscode",
            "Visual Studio Code",
            "Free source-code editor made by Microsoft",
            "editors",
            "💻",
            vec![brew_sw_method("visual-studio-code")],
        ),
        sw_entry(
            "iterm2",
            "iTerm2",
            "Terminal emulator for macOS",
            "terminals",
            "🖥️",
            vec![brew_sw_method("iterm2")],
        ),
        sw_entry(
            "github-cli",
            "GitHub CLI",
            "Official GitHub command-line tool",
            "version-control",
            "🐙",
            vec![brew_sw_method("gh"), github_sw_method("cli", "cli", ".*macOS_arm64\\.zip$")],
        ),
        sw_entry(
            "raycast",
            "Raycast",
            "Productivity tool that lets you control your tools with a few keystrokes",
            "productivity",
            "⚡",
            vec![brew_sw_method("raycast")],
        ),
        sw_entry(
            "rectangle",
            "Rectangle",
            "Move and resize windows using keyboard shortcuts or snap areas",
            "utilities",
            "▭",
            vec![brew_sw_method("rectangle")],
        ),
        sw_entry(
            "docker",
            "Docker Desktop",
            "Container platform for building and sharing containerized applications",
            "utilities",
            "🐳",
            vec![brew_sw_method("docker")],
        ),
        sw_entry(
            "postman",
            "Postman",
            "API platform for building and using APIs",
            "api-tools",
            "📮",
            vec![brew_sw_method("postman")],
        ),
        sw_entry(
            "insomnia",
            "Insomnia",
            "REST client for testing and debugging APIs",
            "api-tools",
            "🌙",
            vec![brew_sw_method("insomnia")],
        ),
        sw_entry(
            "tableplus",
            "TablePlus",
            "Modern database management tool with a beautiful UI",
            "databases",
            "🗄️",
            vec![brew_sw_method("tableplus")],
        ),
        sw_entry(
            "warp",
            "Warp",
            "Modern terminal with AI-powered features and collaborative tools",
            "terminals",
            "🚀",
            vec![brew_sw_method("warp")],
        ),
        sw_entry(
            "wezterm",
            "WezTerm",
            "GPU-accelerated cross-platform terminal emulator and multiplexer",
            "terminals",
            "🖥️",
            vec![brew_sw_method("wezterm")],
        ),
        sw_entry(
            "cursor",
            "Cursor",
            "AI-powered code editor built for pair programming",
            "editors",
            "✏️",
            vec![brew_sw_method("cursor")],
        ),
        sw_entry(
            "sublime-text",
            "Sublime Text",
            "Sophisticated text editor for code, markup and prose",
            "editors",
            "📄",
            vec![brew_sw_method("sublime-text")],
        ),
        sw_entry(
            "notion",
            "Notion",
            "All-in-one workspace for notes, docs, and collaboration",
            "productivity",
            "📝",
            vec![brew_sw_method("notion")],
        ),
        sw_entry(
            "obsidian",
            "Obsidian",
            "Powerful knowledge base that works on top of a local folder of plain text Markdown files",
            "productivity",
            "🪨",
            vec![brew_sw_method("obsidian")],
        ),
        sw_entry(
            "figma",
            "Figma",
            "Collaborative design tool for teams",
            "utilities",
            "🎨",
            vec![brew_sw_method("figma")],
        ),
        sw_entry(
            "slack",
            "Slack",
            "Team communication and collaboration platform",
            "productivity",
            "💬",
            vec![brew_sw_method("slack")],
        ),
        sw_entry(
            "discord",
            "Discord",
            "Voice, video and text communication platform",
            "productivity",
            "🎮",
            vec![brew_sw_method("discord")],
        ),
        sw_entry(
            "lazygit",
            "LazyGit",
            "Simple terminal UI for git commands",
            "version-control",
            "😴",
            vec![brew_sw_method("lazygit")],
        ),
        sw_entry(
            "aerospace",
            "Aerospace",
            "Tiling window manager for macOS",
            "utilities",
            "✈️",
            vec![brew_sw_method("aerospace")],
        ),
        sw_entry(
            "cc-switch",
            "CC Switch",
            "Manage Control Center modules on macOS",
            "utilities",
            "⚙️",
            vec![website_sw_method("https://apps.apple.com/app/cc-switch/id1495891706")],
        ),
        sw_entry(
            "doubao",
            "Doubao",
            "Chinese social media application",
            "productivity",
            "📱",
            vec![website_sw_method("https://www.doubao.com/")],
        ),
        sw_entry(
            "netease-music",
            "Netease Music",
            "Popular music streaming service",
            "productivity",
            "🎵",
            vec![website_sw_method("https://music.163.com/")],
        ),
        sw_entry(
            "tencent-lemon",
            "Tencent Lemon",
            "System cleaning tool for macOS",
            "utilities",
            "🍋",
            vec![website_sw_method("https://lemon.qq.com/")],
        ),
        sw_entry(
            "ibar",
            "iBar",
            "Manage menu bar items on macOS",
            "utilities",
            "📊",
            vec![website_sw_method("https://apps.apple.com/app/ibar/id1452453066")],
        ),
        sw_entry(
            "antigravity",
            "Antigravity",
            "Manage floating windows on macOS",
            "utilities",
            "🚀",
            vec![website_sw_method("https://github.com/antigravity/antigravity")],
        ),
        sw_entry(
            "cherry-studio",
            "Cherry Studio",
            "Edit and manage photos on macOS",
            "utilities",
            "🍒",
            vec![website_sw_method("https://apps.apple.com/app/cherry-studio/id1234567890")],
        ),
        sw_entry(
            "flclash",
            "FlClash",
            "Manage Clash proxy configurations on macOS",
            "utilities",
            "⚡",
            vec![website_sw_method("https://github.com/flclash/flclash")],
        ),
        sw_entry(
            "ihosts",
            "iHosts",
            "Manage and switch hosts files on macOS",
            "utilities",
            "🌐",
            vec![website_sw_method("https://apps.apple.com/app/ihosts/id1102004240")],
        ),
        sw_entry(
            "autoglm",
            "AutoGLM",
            "Automated machine learning tool",
            "utilities",
            "🤖",
            vec![website_sw_method("https://github.com/autoglm/autoglm")],
        ),
        sw_entry(
            "google-chrome",
            "Google Chrome",
            "Widely-used web browser",
            "utilities",
            "🌐",
            vec![website_sw_method("https://www.google.com/chrome/")],
        ),
        sw_entry(
            "rar-extractor",
            "RAR Extractor - Unarchiver",
            "Extract RAR files on macOS",
            "utilities",
            "📦",
            vec![website_sw_method("https://apps.apple.com/app/rar-extractor-unarchiver/id1234567890")],
        ),
        sw_entry(
            "wechat",
            "WeChat",
            "Messaging and social media app",
            "productivity",
            "💬",
            vec![website_sw_method("https://www.wechat.com/")],
        ),
        sw_entry(
            "ima-copilot",
            "ima.copilot",
            "Manage image assets on macOS",
            "utilities",
            "🖼️",
            vec![website_sw_method("https://github.com/ima-copilot/ima-copilot")],
        ),
        sw_entry(
            "barrier",
            "Barrier",
            "Cross-platform software KVM switch",
            "utilities",
            "🔄",
            vec![brew_sw_method("barrier")],
        ),
        sw_entry(
            "microsoft-todo",
            "Microsoft To Do",
            "Task management application",
            "productivity",
            "✅",
            vec![website_sw_method("https://todo.microsoft.com/")],
        )
    ];
    SoftwareRecommendationsConfig { categories, software }
}

} // verus!
