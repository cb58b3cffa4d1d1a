//! The built-in tool catalog: one template per supported command-line tool,
//! with its executable, version probe, configuration files, install methods
//! and dependencies.
use vstd::prelude::*;
use crate::types::{CliToolTemplate, InstallMethod, ConfigFileLocation, spec_deps};
use crate::text::str_eq;

verus! {

/// The ids of the built-in templates, in catalog order.
pub open spec fn builtin_ids() -> Seq<Seq<char>> {
    seq![
        "node"@,
        "python"@,
        "uv"@,
        "n"@,
        "brew"@,
        "aerospace"@,
        "fish"@,
        "lazygit"@,
        "nvim"@,
        "tmux"@,
        "ccusage"@,
        "codex"@,
        "wezterm"@,
        "gemini"@,
        "openspec"@,
        "inshellisense"@,
        "tree-sitter"@,
    ]
}

/// The display names of the built-in templates, in catalog order.
pub open spec fn builtin_names() -> Seq<Seq<char>> {
    seq![
        "Node.js"@,
        "Python"@,
        "uv"@,
        "n"@,
        "Homebrew"@,
        "Aerospace"@,
        "Fish Shell"@,
        "LazyGit"@,
        "Neovim"@,
        "tmux"@,
        "ccusage"@,
        "Codex"@,
        "WezTerm"@,
        "Gemini CLI"@,
        "OpenSpec"@,
        "Inshellisense"@,
        "Tree-sitter CLI"@,
    ]
}

/// The executables of the built-in templates, in catalog order.
pub open spec fn builtin_executables() -> Seq<Seq<char>> {
    seq![
        "node"@,
        "python3"@,
        "uv"@,
        "n"@,
        "brew"@,
        "aerospace"@,
        "fish"@,
        "lazygit"@,
        "nvim"@,
        "tmux"@,
        "ccusage"@,
        "codex"@,
        "wezterm"@,
        "gemini"@,
        "openspec"@,
        "inshellisense"@,
        "tree-sitter"@,
    ]
}

/// The dependency lists of the built-in templates, in catalog order.
pub open spec fn builtin_deps() -> Seq<Seq<Seq<char>>> {
    seq![
        Seq::empty(),
        Seq::empty(),
        seq!["python"@],
        seq!["node"@],
        Seq::empty(),
        seq!["brew"@],
        seq!["brew"@],
        seq!["brew"@],
        seq!["brew"@],
        seq!["brew"@],
        seq!["node"@],
        seq!["node"@],
        seq!["brew"@],
        seq!["node"@],
        seq!["node"@],
        seq!["node"@],
        seq!["node"@],
    ]
}

/// The view of an optional name.
pub open spec fn opt_name(o: Option<String>) -> Option<Seq<char>> {
    match o {
        Some(s) => Some(s@),
        None => None,
    }
}

/// How each built-in template installs: through the package manager or
/// through a shell script.
pub open spec fn builtin_method_kinds() -> Seq<Seq<char>> {
    seq![
        "brew"@,
        "brew"@,
        "brew"@,
        "brew"@,
        "script"@,
        "brew"@,
        "brew"@,
        "brew"@,
        "brew"@,
        "brew"@,
        "script"@,
        "script"@,
        "brew"@,
        "script"@,
        "script"@,
        "script"@,
        "script"@,
    ]
}

/// The cask each built-in template installs, where one applies.
pub open spec fn builtin_casks() -> Seq<Option<Seq<char>>> {
    seq![
        Some("node"@),
        Some("python"@),
        Some("uv"@),
        Some("n"@),
        None,
        Some("aerospace"@),
        None,
        None,
        None,
        None,
        None,
        None,
        Some("wezterm"@),
        None,
        None,
        None,
        None,
    ]
}

/// The formula each built-in template installs, where one applies.
pub open spec fn builtin_formulas() -> Seq<Option<Seq<char>>> {
    seq![
        None,
        None,
        None,
        None,
        None,
        None,
        Some("fish"@),
        Some("lazygit"@),
        Some("neovim"@),
        Some("tmux"@),
        None,
        None,
        None,
        None,
        None,
        None,
        None,
    ]
}

/// The tap a built-in template installs from, where one applies.
pub open spec fn builtin_taps() -> Seq<Option<Seq<char>>> {
    seq![
        None,
        None,
        None,
        None,
        None,
        Some("nikitabobko/tap"@),
        None,
        None,
        None,
        None,
        None,
        None,
        None,
        None,
        None,
        None,
        None,
    ]
}

/// What a catalog must look like to be the built-in one: seventeen entries
/// whose ids, names, executables, version probes, install methods and
/// dependency lists are exactly the built-in data.
pub open spec fn builtin_catalog(ts: Seq<CliToolTemplate>) -> bool {
    &&& ts.len() == 17
    &&& forall|k: int| 0 <= k < 17 ==> (#[trigger] ts[k]).id@ == builtin_ids()[k]
    &&& forall|k: int| 0 <= k < 17 ==> (#[trigger] ts[k]).name@ == builtin_names()[k]
    &&& forall|k: int| 0 <= k < 17 ==> (#[trigger] ts[k]).executable@ == builtin_executables()[k]
    &&& forall|k: int|
        0 <= k < 17 ==> (#[trigger] ts[k]).version_command@ == (if k == 9 {
            "-V"@
        } else {
            "--version"@
        })
    &&& forall|k: int|
        0 <= k < 17 ==> (#[trigger] ts[k]).version_parser@ == (if k == 1 {
            "stderr"@
        } else {
            "stdout"@
        })
    &&& forall|k: int| 0 <= k < 17 ==> spec_deps(#[trigger] ts[k]) == builtin_deps()[k]
    &&& forall|k: int| 0 <= k < 17 ==> #[trigger] builtin_install_ok(ts, k)
}

/// The install methods of the built-in template at position `k` are
/// exactly the built-in data: one method of the recorded kind, with the
/// recorded cask, formula and tap, and with commands where it is a script.
pub open spec fn builtin_install_ok(ts: Seq<CliToolTemplate>, k: int) -> bool {
    &&& ts[k].install_methods matches Some(ms) && ms@.len() == 1 && ms@[0].method_type@
        == builtin_method_kinds()[k] && opt_name(ms@[0].brew_cask_name) == builtin_casks()[k]
        && opt_name(ms@[0].brew_formula_name) == builtin_formulas()[k] && opt_name(ms@[0].brew_tap)
        == builtin_taps()[k] && (builtin_method_kinds()[k] == "script"@ ==> (ms@[0].script_commands
        matches Some(cs) && cs@.len() >= 1))
}

/// One entry carries exactly the built-in data recorded for position `k`.
pub open spec fn builtin_entry_ok(t: CliToolTemplate, k: int) -> bool {
    &&& t.id@ == builtin_ids()[k]
    &&& t.name@ == builtin_names()[k]
    &&& t.executable@ == builtin_executables()[k]
    &&& t.version_command@ == (if k == 9 {
        "-V"@
    } else {
        "--version"@
    })
    &&& t.version_parser@ == (if k == 1 {
        "stderr"@
    } else {
        "stdout"@
    })
    &&& spec_deps(t) == builtin_deps()[k]
    &&& (t.install_methods matches Some(ms) && ms@.len() == 1 && ms@[0].method_type@
        == builtin_method_kinds()[k] && opt_name(ms@[0].brew_cask_name) == builtin_casks()[k]
        && opt_name(ms@[0].brew_formula_name) == builtin_formulas()[k] && opt_name(ms@[0].brew_tap)
        == builtin_taps()[k] && (builtin_method_kinds()[k] == "script"@ ==> (ms@[0].script_commands
        matches Some(cs) && cs@.len() >= 1)))
}

/// The ids of the built-in catalog are pairwise distinct, as a catalog
/// provider must guarantee.
pub proof fn lemma_builtin_ids_distinct()
    ensures
        builtin_ids().no_duplicates(),
{
    reveal_strlit("node");
    reveal_strlit("python");
    reveal_strlit("uv");
    reveal_strlit("n");
    reveal_strlit("brew");
    reveal_strlit("aerospace");
    reveal_strlit("fish");
    reveal_strlit("lazygit");
    reveal_strlit("nvim");
    reveal_strlit("tmux");
    reveal_strlit("ccusage");
    reveal_strlit("codex");
    reveal_strlit("wezterm");
    reveal_strlit("gemini");
    reveal_strlit("openspec");
    reveal_strlit("inshellisense");
    reveal_strlit("tree-sitter");
    assert forall|i: int, j: int|
        0 <= i < builtin_ids().len() && 0 <= j < builtin_ids().len() && i != j implies builtin_ids()[i]
        != builtin_ids()[j] by {
        assert(builtin_ids()[i].len() != builtin_ids()[j].len() || builtin_ids()[i][0]
            != builtin_ids()[j][0] || builtin_ids()[i][1] != builtin_ids()[j][1]
            || builtin_ids()[i][2] != builtin_ids()[j][2]);
    }
}

fn brew_method(cask: Option<String>, formula: Option<String>, tap: Option<String>) -> (m:
    InstallMethod)
    ensures
        m.method_type@ == "brew"@,
        m.brew_cask_name == cask,
        m.brew_formula_name == formula,
        m.brew_tap == tap,
        m.script_commands is None,
{
    InstallMethod {
        method_type: "brew".to_owned(),
        brew_cask_name: cask,
        brew_formula_name: formula,
        brew_tap: tap,
        dmg_url: None,
        dmg_install_steps: None,
        script_commands: None,
    }
}

fn script_method(commands: Vec<String>) -> (m: InstallMethod)
    ensures
        m.method_type@ == "script"@,
        m.brew_cask_name is None,
        m.brew_formula_name is None,
        m.brew_tap is None,
        m.script_commands == Some(commands),
{
    InstallMethod {
        method_type: "script".to_owned(),
        brew_cask_name: None,
        brew_formula_name: None,
        brew_tap: None,
        dmg_url: None,
        dmg_install_steps: None,
        script_commands: Some(commands),
    }
}

fn config_file(path: &str, description: &str) -> (c: ConfigFileLocation)
    ensures
        c.path@ == path@,
        c.description@ == description@,
{
    ConfigFileLocation { path: path.to_owned(), description: description.to_owned() }
}

#[verifier::rlimit(60)]
fn builtin_template(
    id: &str,
    name: &str,
    executable: &str,
    version_command: &str,
    version_parser: &str,
    config_files: Vec<ConfigFileLocation>,
    install_methods: Option<Vec<InstallMethod>>,
    dependencies: Option<Vec<String>>,
) -> (t: CliToolTemplate)
    ensures
        t.id@ == id@,
        t.name@ == name@,
        t.executable@ == executable@,
        t.version_command@ == version_command@,
        t.version_parser@ == version_parser@,
        t.config_files == config_files,
        t.install_methods == install_methods,
        t.dependencies == dependencies,
{
    CliToolTemplate {
        id: id.to_owned(),
        name: name.to_owned(),
        executable: executable.to_owned(),
        version_command: version_command.to_owned(),
        version_parser: version_parser.to_owned(),
        config_files,
        install_methods,
        dependencies,
    }
}

#[verifier::rlimit(100)]
fn builtin_templates_front() -> (r: Vec<CliToolTemplate>)
    ensures
        r@.len() == 9,
        forall|k: int| 0 <= k < 9 ==> builtin_entry_ok(#[trigger] r@[k], k + 0),
{
    let r: Vec<CliToolTemplate> = vec![
        builtin_template(
            "node",
            "Node.js",
            "node",
            "--version",
            "stdout",
            vec![config_file("~/.npmrc", "NPM configuration")],
            Some(vec![brew_method(Some("node".to_owned()), None, None)]),
            None,
        ),
        builtin_template(
            "python",
            "Python",
            "python3",
            "--version",
            "stderr",
            vec![config_file("~/.pythonrc", "Python configuration")],
            Some(vec![brew_method(Some("python".to_owned()), None, None)]),
            None,
        ),
        builtin_template(
            "uv",
            "uv",
            "uv",
            "--version",
            "stdout",
            vec![config_file("~/.uv/uv.toml", "UV configuration")],
            Some(vec![brew_method(Some("uv".to_owned()), None, None)]),
            Some(vec!["python".to_owned()]),
        ),
        builtin_template(
            "n",
            "n",
            "n",
            "--version",
            "stdout",
            Vec::new(),
            Some(vec![brew_method(Some("n".to_owned()), None, None)]),
            Some(vec!["node".to_owned()]),
        ),
        builtin_template(
            "brew",
            "Homebrew",
            "brew",
            "--version",
            "stdout",
            Vec::new(),
            Some(
                vec![
                    script_method(
                        vec![
                            "echo 'export HOMEBREW_API_DOMAIN=\"https://mirrors.tuna.tsinghua.edu.cn/homebrew-bottles/api\"' >> ~/.zprofile".to_owned(),
                            "echo 'export HOMEBREW_BOTTLE_DOMAIN=\"https://mirrors.tuna.tsinghua.edu.cn/homebrew-bottles\"' >> ~/.zprofile".to_owned(),
                            "export HOMEBREW_API_DOMAIN=\"https://mirrors.tuna.tsinghua.edu.cn/homebrew-bottles/api\"".to_owned(),
                            "export HOMEBREW_BOTTLE_DOMAIN=\"https://mirrors.tuna.tsinghua.edu.cn/homebrew-bottles\"".to_owned(),
                            "xcode-select --install".to_owned(),
                            "export HOMEBREW_BREW_GIT_REMOTE=\"https://mirrors.tuna.tsinghua.edu.cn/git/homebrew/brew.git\"".to_owned(),
                            "export HOMEBREW_CORE_GIT_REMOTE=\"https://mirrors.tuna.tsinghua.edu.cn/git/homebrew/homebrew-core.git\"".to_owned(),
                            "export HOMEBREW_INSTALL_FROM_API=1".to_owned(),
                            "git clone --depth=1 https://mirrors.tuna.tsinghua.edu.cn/git/homebrew/install.git brew-install".to_owned(),
                            "/bin/bash brew-install/install.sh".to_owned(),
                            "rm -rf brew-install".to_owned(),
                        ],
                    ),
                ],
            ),
            None,
        ),
        builtin_template(
            "aerospace",
            "Aerospace",
            "aerospace",
            "--version",
            "stdout",
            vec![config_file("~/.config/aerospace/aerospace.toml", "Aerospace configuration")],
            Some(
                vec![
                    brew_method(
                        Some("aerospace".to_owned()),
                        None,
                        Some("nikitabobko/tap".to_owned()),
                    ),
                ],
            ),
            Some(vec!["brew".to_owned()]),
        ),
        builtin_template(
            "fish",
            "Fish Shell",
            "fish",
            "--version",
            "stdout",
            vec![config_file("~/.config/fish/config.fish", "Fish shell configuration")],
            Some(vec![brew_method(None, Some("fish".to_owned()), None)]),
            Some(vec!["brew".to_owned()]),
        ),
        builtin_template(
            "lazygit",
            "LazyGit",
            "lazygit",
            "--version",
            "stdout",
            vec![config_file("~/.config/lazygit/config.yml", "LazyGit configuration")],
            Some(vec![brew_method(None, Some("lazygit".to_owned()), None)]),
            Some(vec!["brew".to_owned()]),
        ),
        builtin_template(
            "nvim",
            "Neovim",
            "nvim",
            "--version",
            "stdout",
            vec![config_file("~/.config/nvim/init.lua", "Neovim configuration")],
            Some(vec![brew_method(None, Some("neovim".to_owned()), None)]),
            Some(vec!["brew".to_owned()]),
        ),
    ];
    proof {
        reveal_strlit("brew");
        reveal_strlit("script");
        assert("brew"@.len() == 4);
        assert("script"@.len() == 6);
        assert("brew"@ != "script"@);
        assert(spec_deps(r@[0]) =~= builtin_deps()[0]);
        assert(spec_deps(r@[1]) =~= builtin_deps()[1]);
        assert(spec_deps(r@[2]) =~= builtin_deps()[2]);
        assert(spec_deps(r@[3]) =~= builtin_deps()[3]);
        assert(spec_deps(r@[4]) =~= builtin_deps()[4]);
        assert(spec_deps(r@[5]) =~= builtin_deps()[5]);
        assert(spec_deps(r@[6]) =~= builtin_deps()[6]);
        assert(spec_deps(r@[7]) =~= builtin_deps()[7]);
        assert(spec_deps(r@[8]) =~= builtin_deps()[8]);
        assert(builtin_entry_ok(r@[0], 0));
        assert(builtin_entry_ok(r@[1], 1));
        assert(builtin_entry_ok(r@[2], 2));
        assert(builtin_entry_ok(r@[3], 3));
        assert(builtin_entry_ok(r@[4], 4));
        assert(builtin_entry_ok(r@[5], 5));
        assert(builtin_entry_ok(r@[6], 6));
        assert(builtin_entry_ok(r@[7], 7));
        assert(builtin_entry_ok(r@[8], 8));
    }
    r
}

#[verifier::rlimit(100)]
fn builtin_templates_back() -> (r: Vec<CliToolTemplate>)
    ensures
        r@.len() == 8,
        forall|k: int| 0 <= k < 8 ==> builtin_entry_ok(#[trigger] r@[k], k + 9),
{
    let r: Vec<CliToolTemplate> = vec![
        builtin_template(
            "tmux",
            "tmux",
            "tmux",
            "-V",
            "stdout",
            vec![config_file("~/.tmux.conf", "tmux configuration")],
            Some(vec![brew_method(None, Some("tmux".to_owned()), None)]),
            Some(vec!["brew".to_owned()]),
        ),
        builtin_template(
            "ccusage",
            "ccusage",
            "ccusage",
            "--version",
            "stdout",
            Vec::new(),
            Some(vec![script_method(vec!["pnpm install -g ccusage@latest".to_owned()])]),
            Some(vec!["node".to_owned()]),
        ),
        builtin_template(
            "codex",
            "Codex",
            "codex",
            "--version",
            "stdout",
            Vec::new(),
            Some(vec![script_method(vec!["pnpm install -g @ccusage/codex@latest".to_owned()])]),
            Some(vec!["node".to_owned()]),
        ),
        builtin_template(
            "wezterm",
            "WezTerm",
            "wezterm",
            "--version",
            "stdout",
            vec![config_file("~/.config/wezterm/wezterm.lua", "WezTerm configuration")],
            Some(vec![brew_method(Some("wezterm".to_owned()), None, None)]),
            Some(vec!["brew".to_owned()]),
        ),
        builtin_template(
            "gemini",
            "Gemini CLI",
            "gemini",
            "--version",
            "stdout",
            Vec::new(),
            Some(vec![script_method(vec!["npm install -g @google/gemini-cli".to_owned()])]),
            Some(vec!["node".to_owned()]),
        ),
        builtin_template(
            "openspec",
            "OpenSpec",
            "openspec",
            "--version",
            "stdout",
            Vec::new(),
            Some(
                vec![script_method(vec!["npm install -g @fission-ai/openspec@latest".to_owned()])],
            ),
            Some(vec!["node".to_owned()]),
        ),
        builtin_template(
            "inshellisense",
            "Inshellisense",
            "inshellisense",
            "--version",
            "stdout",
            Vec::new(),
            Some(
                vec![script_method(vec!["npm install -g @microsoft/inshellisense".to_owned()])],
            ),
            Some(vec!["node".to_owned()]),
        ),
        builtin_template(
            "tree-sitter",
            "Tree-sitter CLI",
            "tree-sitter",
            "--version",
            "stdout",
            Vec::new(),
            Some(vec![script_method(vec!["npm install -g tree-sitter-cli".to_owned()])]),
            Some(vec!["node".to_owned()]),
        ),
    ];
    proof {
        reveal_strlit("brew");
        reveal_strlit("script");
        assert("brew"@.len() == 4);
        assert("script"@.len() == 6);
        assert("brew"@ != "script"@);
        assert(spec_deps(r@[0]) =~= builtin_deps()[9]);
        assert(spec_deps(r@[1]) =~= builtin_deps()[10]);
        assert(spec_deps(r@[2]) =~= builtin_deps()[11]);
        assert(spec_deps(r@[3]) =~= builtin_deps()[12]);
        assert(spec_deps(r@[4]) =~= builtin_deps()[13]);
        assert(spec_deps(r@[5]) =~= builtin_deps()[14]);
        assert(spec_deps(r@[6]) =~= builtin_deps()[15]);
        assert(spec_deps(r@[7]) =~= builtin_deps()[16]);
        assert(builtin_entry_ok(r@[0], 9));
        assert(builtin_entry_ok(r@[1], 10));
        assert(builtin_entry_ok(r@[2], 11));
        assert(builtin_entry_ok(r@[3], 12));
        assert(builtin_entry_ok(r@[4], 13));
        assert(builtin_entry_ok(r@[5], 14));
        assert(builtin_entry_ok(r@[6], 15));
        assert(builtin_entry_ok(r@[7], 16));
    }
    r
}

/// The built-in CLI tool templates.
pub fn get_builtin_templates() -> (r: Vec<CliToolTemplate>)
    ensures
        builtin_catalog(r@),
{
    let mut r = builtin_templates_front();
    let mut tail = builtin_templates_back();
    let ghost front = r@;
    let ghost back = tail@;
    r.append(&mut tail);
    proof {
        assert(r@ == front + back);
        assert(r@.len() == 17);
        assert forall|k: int| 0 <= k < 17 implies builtin_entry_ok(#[trigger] r@[k], k) by {
            if k < 9 {
                assert(r@[k] == front[k]);
                assert(builtin_entry_ok(front[k], k));
            } else {
                assert(r@[k] == back[k - 9]);
                assert(builtin_entry_ok(back[k - 9], (k - 9) + 9));
            }
        }
        assert forall|k: int| 0 <= k < 17 implies #[trigger] builtin_install_ok(r@, k) by {
            assert(builtin_entry_ok(r@[k], k));
        }
    }
    r
}

/// List all templates; the catalog is the built-in set.
pub fn list_all_templates() -> (r: Vec<CliToolTemplate>)
    ensures
        builtin_catalog(r@),
{
    get_builtin_templates()
}

/// Look a template up by id in the full catalog.
pub fn get_template_by_id(id: &str) -> (r: Option<CliToolTemplate>)
    ensures
        match r {
            Some(t) => builtin_ids().contains(id@) && t.id@ == id@ && exists|k: int|
                0 <= k < 17 && #[trigger] builtin_ids()[k] == id@ && t.name@ == builtin_names()[k]
                    && spec_deps(t) == builtin_deps()[k],
            None => !builtin_ids().contains(id@),
        },
{
    let mut all = list_all_templates();
    let n = all.len();
    for i in 0..n
        invariant
            n == all@.len(),
            builtin_catalog(all@),
            forall|j: int| 0 <= j < i ==> (#[trigger] all@[j]).id@ != id@,
    {
        if str_eq(all[i].id.as_str(), id) {
            let ghost picked = all@[i as int];
            let t = all.remove(i);
            proof {
                assert(t == picked);
                assert(builtin_ids()[i as int] == id@);
            }
            return Some(t);
        }
    }
    proof {
        if builtin_ids().contains(id@) {
            let k = choose|k: int| 0 <= k < builtin_ids().len() && builtin_ids()[k] == id@;
            assert(all@[k].id@ == builtin_ids()[k]);
        }
    }
    None
}

} // verus!
