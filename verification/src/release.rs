//! Release handling: filtering a release's assets by a pattern, and the
//! small URL computations around a scraped release page.
use vstd::prelude::*;
use vstd::string::StringExecFns;
use crate::types::{GitHubReleaseInfo, GitHubReleaseAsset};
use crate::text::{str_starts_with, str_last_index_of, str_suffix_from};

verus! {

/// Whether a pattern is a well-formed regular expression; what
/// regex::Regex::new accepts depends on the pattern alone.
pub uninterp spec fn regex_ok(pattern: Seq<char>) -> bool;

/// Whether a regular expression matches somewhere in a text; what
/// regex::Regex::is_match returns depends on the pattern and text alone.
pub uninterp spec fn regex_accepts(pattern: Seq<char>, text: Seq<char>) -> bool;

/// Relies on regex::Regex::new and regex::Regex::is_match: compiling fails
/// exactly for ill-formed patterns, and a compiled pattern matches a text
/// as a function of the two strings alone. The error carries the
/// compiler's own description of the problem.
#[verifier::external_body]
fn pattern_matches(pattern: &str, text: &str) -> (r: Result<bool, String>)
    ensures
        r is Ok <==> regex_ok(pattern@),
        r matches Ok(b) ==> b == regex_accepts(pattern@, text@),
{
    match regex::Regex::new(pattern) {
        Ok(re) => Ok(re.is_match(text)),
        Err(e) => Err(format!("{}", e)),
    }
}

/// Keep only the assets whose names the pattern accepts.
pub open spec fn assets_kept(assets: Seq<GitHubReleaseAsset>, pattern: Seq<char>) -> Seq<
    GitHubReleaseAsset,
> {
    assets.filter(|a: GitHubReleaseAsset| regex_accepts(pattern, a.name@))
}

/// Filter a release's assets by an optional name pattern: without a
/// pattern the release is returned unchanged; an ill-formed pattern or a
/// pattern matching no asset is an error.
pub fn filter_release_assets(release: GitHubReleaseInfo, asset_pattern: Option<&str>) -> (r:
    Result<GitHubReleaseInfo, String>)
    ensures
        match asset_pattern {
            None => r == Ok::<GitHubReleaseInfo, String>(release),
            Some(p) => match r {
                Ok(out) => {
                    &&& regex_ok(p@)
                    &&& out.assets@ == assets_kept(release.assets@, p@)
                    &&& out.assets@.len() > 0
                    &&& out.tag_name == release.tag_name
                    &&& out.name == release.name
                    &&& out.published_at == release.published_at
                },
                Err(m) => {
                    &&& (!regex_ok(p@) ==> exists|tail: Seq<char>|
                        m@ == "Invalid asset pattern regex: "@ + tail)
                    &&& (regex_ok(p@) ==> assets_kept(release.assets@, p@).len() == 0 && m@
                        == "No assets found matching pattern: "@ + p@)
                },
            },
        },
{
    let pattern = match asset_pattern {
        None => {
            return Ok(release);
        },
        Some(p) => p,
    };
    let ghost pred = |a: GitHubReleaseAsset| regex_accepts(pattern@, a.name@);
    // an ill-formed pattern fails up front
    match pattern_matches(pattern, "") {
        Err(e) => {
            let mut m = "Invalid asset pattern regex: ".to_owned();
            m.append(e.as_str());
            return Err(m);
        },
        Ok(_) => {},
    }
    let GitHubReleaseInfo { tag_name, name, assets, published_at } = release;
    let ghost orig = assets@;
    let mut remaining = assets;
    let mut kept: Vec<GitHubReleaseAsset> = Vec::new();
    let mut done: usize = 0;
    let total = remaining.len();
    proof {
        assert(orig.take(0) =~= Seq::<GitHubReleaseAsset>::empty());
        assert(orig.take(0).filter(pred) =~= Seq::<GitHubReleaseAsset>::empty());
        assert(kept@ =~= orig.take(0).filter(pred));
    }
    while remaining.len() > 0
        invariant
            regex_ok(pattern@),
            orig.len() == total,
            0 <= done as int <= orig.len(),
            remaining@ == orig.skip(done as int),
            pred == (|a: GitHubReleaseAsset| regex_accepts(pattern@, a.name@)),
            kept@ == orig.take(done as int).filter(pred),
        decreases remaining@.len(),
    {
        let a = remaining.remove(0);
        proof {
            assert(a == orig.skip(done as int)[0]);
            assert(a == orig[done as int]);
            assert(remaining@ =~= orig.skip(done as int + 1));
        }
        let hit = match pattern_matches(pattern, a.name.as_str()) {
            Ok(b) => b,
            Err(_) => {
                proof {
                    assert(false);
                }
                false
            },
        };
        proof {
            let prefix = orig.take(done as int);
            assert(orig.take(done as int + 1) =~= prefix.push(orig[done as int]));
            prefix.lemma_filter_push(orig[done as int], pred);
        }
        if hit {
            kept.push(a);
            proof {
                assert(kept@ =~= orig.take(done as int + 1).filter(pred));
            }
        } else {
            proof {
                assert(kept@ =~= orig.take(done as int + 1).filter(pred));
            }
        }
        done = done + 1;
    }
    proof {
        assert(orig.take(done as int) =~= orig);
    }
    if kept.len() == 0 {
        let mut m = "No assets found matching pattern: ".to_owned();
        m.append(pattern);
        return Err(m);
    }
    Ok(GitHubReleaseInfo { tag_name, name, assets: kept, published_at })
}

/// A scraped download link as an absolute URL: links that already carry a
/// scheme stay as they are, site-relative ones are rooted at the site.
pub fn normalize_download_url(href: &str) -> (r: String)
    ensures
        (href@.len() >= 4 && href@.subrange(0, 4) == "http"@) ==> r@ == href@,
        !(href@.len() >= 4 && href@.subrange(0, 4) == "http"@) ==> r@ == "https://github.com"@
            + href@,
{
    if str_starts_with(href, "http") {
        proof {
            reveal_strlit("http");
        }
        href.to_owned()
    } else {
        proof {
            reveal_strlit("http");
        }
        let mut r = "https://github.com".to_owned();
        r.append(href);
        r
    }
}

/// The release tag at the end of a link: everything after the last slash,
/// or the whole link when it has none.
pub fn tag_from_href(href: &str) -> (r: String)
    ensures
        match crate::text::last_slash_position(href@) {
            Some(i) => r@ == href@.skip(i + 1),
            None => r@ == href@,
        },
{
    let l = crate::text::str_unicode_len(href);
    match str_last_index_of(href, '/') {
        Some(i) => {
            proof {
                assert((i as int) < l as int);
            }
            proof {
                let li = crate::text::last_slash_position(href@);
                assert(li is Some);
                let w = li.unwrap();
                assert(href@[w] == '/' && forall|j: int| w < j < href@.len() ==> href@[j] != '/');
                assert(w == i as int) by {
                    if w < i as int {
                        assert(href@[i as int] != '/');
                    }
                    if w > i as int {
                        assert(href@[w] != '/');
                    }
                }
            }
            str_suffix_from(href, i + 1)
        },
        None => {
            proof {
                assert(crate::text::last_slash_position(href@) is None);
            }
            href.to_owned()
        },
    }
}

} // verus!
