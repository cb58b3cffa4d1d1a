//! Which recommended applications are present, judged from the installed
//! brew casks and the entries of the applications folder.
use vstd::prelude::*;
use vstd::string::StrSliceExecFns;
use crate::types::SoftwareRecommendation;
use crate::text::{names_contain, str_eq};

verus! {

/// The lowercase form of a character sequence.
pub uninterp spec fn lower_of(s: Seq<char>) -> Seq<char>;

/// Relies on str::to_lowercase: the result depends on the characters alone.
#[verifier::external_body]
fn lowercase(s: &str) -> (r: String)
    ensures
        r@ == lower_of(s@),
{
    s.to_lowercase()
}

/// Whether a folder entry is the application: an `.app` bundle whose base
/// name matches the application name, ignoring case.
pub open spec fn entry_matches(e: Seq<char>, name: Seq<char>) -> bool {
    &&& e.len() >= 4
    &&& e.subrange(e.len() - 4, e.len() as int) == ".app"@
    &&& lower_of(e.subrange(0, e.len() - 4)) == lower_of(name)
}

/// Whether an application of the given name appears among the folder
/// entries, matched case-insensitively against `.app` bundles.
pub fn check_app_installed(app_name: &str, entries: &Vec<String>) -> (b: bool)
    ensures
        b == exists|i: int|
            0 <= i < entries.deep_view().len() && entry_matches(
                #[trigger] entries.deep_view()[i],
                app_name@,
            ),
{
    proof {
        reveal_strlit(".app");
    }
    let want = lowercase(app_name);
    let n = entries.len();
    for i in 0..n
        invariant
            n == entries@.len(),
            want@ == lower_of(app_name@),
            forall|j: int| 0 <= j < i ==> !entry_matches(#[trigger] entries.deep_view()[j], app_name@),
    {
        let e = entries[i].as_str();
        let l = e.unicode_len();
        proof {
            reveal_strlit(".app");
            assert(entries.deep_view()[i as int] == e@);
        }
        if l >= 4 {
            let is_bundle = e.get_char(l - 4) == '.' && e.get_char(l - 3) == 'a' && e.get_char(
                l - 2,
            ) == 'p' && e.get_char(l - 1) == 'p';
            proof {
                if is_bundle {
                    assert(e@.subrange(e@.len() - 4, e@.len() as int) =~= ".app"@);
                } else {
                    if e@.subrange(e@.len() - 4, e@.len() as int) == ".app"@ {
                        assert(e@.subrange(e@.len() - 4, e@.len() as int)[0] == '.');
                        assert(e@.subrange(e@.len() - 4, e@.len() as int)[1] == 'a');
                        assert(e@.subrange(e@.len() - 4, e@.len() as int)[2] == 'p');
                        assert(e@.subrange(e@.len() - 4, e@.len() as int)[3] == 'p');
                        assert(false);
                    }
                }
            }
            if is_bundle {
                let base = e.substring_char(0, l - 4);
                let lowered = lowercase(base);
                if lowered == want {
                    proof {
                        assert(base@ =~= e@.subrange(0, e@.len() - 4));
                        assert(entry_matches(entries.deep_view()[i as int], app_name@));
                    }
                    return true;
                }
                proof {
                    assert(base@ =~= e@.subrange(0, e@.len() - 4));
                    assert(!entry_matches(entries.deep_view()[i as int], app_name@));
                }
            }
        }
    }
    proof {
        if exists|i: int|
            0 <= i < entries.deep_view().len() && entry_matches(
                #[trigger] entries.deep_view()[i],
                app_name@,
            ) {
            let i = choose|i: int|
                0 <= i < entries.deep_view().len() && entry_matches(
                    #[trigger] entries.deep_view()[i],
                    app_name@,
                );
        }
    }
    false
}

/// Whether one install method finds the application present.
pub open spec fn method_hits(
    m: crate::types::SoftwareInstallMethod,
    name: Seq<char>,
    casks: Seq<Seq<char>>,
    apps: Seq<Seq<char>>,
) -> bool {
    ||| (m.method_type@ == "brew"@ && match m.cask {
        Some(c) => casks.contains(c@),
        None => false,
    })
    ||| (m.method_type@ == "github"@ && exists|i: int|
        0 <= i < apps.len() && entry_matches(#[trigger] apps[i], name))
}

/// Whether any install method finds the application present.
pub open spec fn sw_installed(
    sw: SoftwareRecommendation,
    casks: Seq<Seq<char>>,
    apps: Seq<Seq<char>>,
) -> bool {
    exists|j: int|
        0 <= j < sw.install_methods@.len() && method_hits(
            #[trigger] sw.install_methods@[j],
            sw.name@,
            casks,
            apps,
        )
}

/// Judge each recommendation against the installed casks and the entries
/// of the applications folder: one (id, installed) pair per entry, in
/// order.
pub fn detect_installed_software(
    software_list: Vec<SoftwareRecommendation>,
    installed_casks: &Vec<String>,
    application_entries: &Vec<String>,
) -> (r: Result<Vec<(String, bool)>, String>)
    ensures
        match r {
            Ok(out) => {
                &&& out@.len() == software_list@.len()
                &&& forall|k: int|
                    0 <= k < out@.len() ==> (#[trigger] out@[k]).0@ == software_list@[k].id@
                        && out@[k].1 == sw_installed(
                        software_list@[k],
                        installed_casks.deep_view(),
                        application_entries.deep_view(),
                    )
            },
            Err(_) => false,
        },
{
    let ghost casks = installed_casks.deep_view();
    let ghost apps = application_entries.deep_view();
    let mut results: Vec<(String, bool)> = Vec::new();
    let n = software_list.len();
    for k in 0..n
        invariant
            n == software_list@.len(),
            casks == installed_casks.deep_view(),
            apps == application_entries.deep_view(),
            results@.len() == k,
            forall|j: int|
                0 <= j < k ==> (#[trigger] results@[j]).0@ == software_list@[j].id@
                    && results@[j].1 == sw_installed(software_list@[j], casks, apps),
    {
        let sw = &software_list[k];
        let mut is_installed = false;
        let ml = sw.install_methods.len();
        for j in 0..ml
            invariant
                n == software_list@.len(),
                k < n,
                casks == installed_casks.deep_view(),
                apps == application_entries.deep_view(),
                ml == sw.install_methods@.len(),
                sw == software_list@[k as int],
                is_installed == exists|jj: int|
                    0 <= jj < j && method_hits(
                        #[trigger] sw.install_methods@[jj],
                        sw.name@,
                        casks,
                        apps,
                    ),
        {
            let m = &sw.install_methods[j];
            let hit = if str_eq(m.method_type.as_str(), "brew") {
                match &m.cask {
                    Some(cask_name) => names_contain(installed_casks, cask_name.as_str()),
                    None => false,
                }
            } else if str_eq(m.method_type.as_str(), "github") {
                check_app_installed(sw.name.as_str(), application_entries)
            } else {
                false
            };
            proof {
                reveal_strlit("brew");
                reveal_strlit("github");
                assert("brew"@.len() == 4);
                assert("github"@.len() == 6);
                assert(hit == method_hits(sw.install_methods@[j as int], sw.name@, casks, apps));
            }
            is_installed = is_installed || hit;
        }
        proof {
            let target = software_list@[k as int];
            if is_installed {
                let jj = choose|jj: int|
                    0 <= jj < ml && method_hits(
                        #[trigger] sw.install_methods@[jj],
                        sw.name@,
                        casks,
                        apps,
                    );
                assert(target.install_methods@[jj] == sw.install_methods@[jj]);
                assert(method_hits(target.install_methods@[jj], target.name@, casks, apps));
                assert(sw_installed(target, casks, apps));
            }
            if sw_installed(target, casks, apps) {
                let jj = choose|jj: int|
                    0 <= jj < target.install_methods@.len() && method_hits(
                        #[trigger] target.install_methods@[jj],
                        target.name@,
                        casks,
                        apps,
                    );
                assert(sw.install_methods@[jj] == target.install_methods@[jj]);
                assert(method_hits(sw.install_methods@[jj], sw.name@, casks, apps));
                assert(is_installed);
            }
            assert(is_installed == sw_installed(target, casks, apps));
        }
        results.push((sw.id.clone(), is_installed));
    }
    Ok(results)
}

} // verus!
