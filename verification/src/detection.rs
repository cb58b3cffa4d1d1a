//! The computations of tool detection: expanding home-relative paths, and
//! turning detection results into the installed set.
use vstd::prelude::*;
use vstd::string::{StringExecFns, StrSliceExecFns};
use crate::types::CliToolDetection;
use crate::text::{str_starts_with, str_suffix_from};

verus! {

/// A path with a leading `~/` rooted at the home directory.
pub open spec fn tilde_expanded(s: Seq<char>, home: Seq<char>) -> Seq<char> {
    if s.len() >= 2 && s[0] == '~' && s[1] == '/' {
        home + s.skip(1)
    } else {
        s
    }
}

/// A path with every occurrence of `$HOME` replaced by the home directory,
/// scanning left to right.
pub open spec fn home_replaced(s: Seq<char>, home: Seq<char>) -> Seq<char>
    decreases s.len(),
{
    if s.len() >= 5 && s.subrange(0, 5) == "$HOME"@ {
        home + home_replaced(s.skip(5), home)
    } else if s.len() == 0 {
        Seq::empty()
    } else {
        seq![s[0]] + home_replaced(s.skip(1), home)
    }
}

fn replace_home_var(s: &str, home: &str) -> (r: String)
    ensures
        r@ == home_replaced(s@, home@),
{
    proof {
        reveal_strlit("$HOME");
    }
    let l = s.unicode_len();
    let mut out = String::new();
    let mut i: usize = 0;
    proof {
        assert(s@.skip(0) =~= s@);
        assert(out@ + home_replaced(s@.skip(0), home@) =~= home_replaced(s@, home@));
    }
    while i < l
        invariant
            l == s@.len(),
            0 <= i <= l,
            "$HOME"@.len() == 5,
            "$HOME"@[0] == '$' && "$HOME"@[1] == 'H' && "$HOME"@[2] == 'O' && "$HOME"@[3] == 'M'
                && "$HOME"@[4] == 'E',
            out@ + home_replaced(s@.skip(i as int), home@) == home_replaced(s@, home@),
        decreases l - i,
    {
        let ghost rem = s@.skip(i as int);
        let marker = l - i >= 5 && s.get_char(i) == '$' && s.get_char(i + 1) == 'H' && s.get_char(
            i + 2,
        ) == 'O' && s.get_char(i + 3) == 'M' && s.get_char(i + 4) == 'E';
        proof {
            assert(forall|j: int| 0 <= j < rem.len() ==> rem[j] == s@[i + j]);
            if marker {
                assert(rem.len() >= 5 && rem.subrange(0, 5) =~= "$HOME"@);
            } else {
                if rem.len() >= 5 && rem.subrange(0, 5) == "$HOME"@ {
                    assert(rem.subrange(0, 5)[0] == '$');
                    assert(rem.subrange(0, 5)[1] == 'H');
                    assert(rem.subrange(0, 5)[2] == 'O');
                    assert(rem.subrange(0, 5)[3] == 'M');
                    assert(rem.subrange(0, 5)[4] == 'E');
                    assert(false);
                }
            }
        }
        if marker {
            out.append(home);
            proof {
                assert(rem.skip(5) =~= s@.skip(i + 5));
            }
            i = i + 5;
        } else {
            let piece = s.substring_char(i, i + 1);
            out.append(piece);
            proof {
                assert(piece@ =~= seq![rem[0]]);
                assert(rem.skip(1) =~= s@.skip(i + 1));
            }
            i = i + 1;
        }
    }
    proof {
        assert(s@.skip(l as int) =~= Seq::<char>::empty());
        assert(home_replaced(Seq::<char>::empty(), home@) =~= Seq::<char>::empty());
        assert(out@ =~= out@ + Seq::<char>::empty());
    }
    out
}

/// Expand home shorthands in a path: a leading `~/` and every `$HOME`,
/// both against the supplied home directory; without one the path stays
/// as it is.
pub fn expand_path(path: &str, home: Option<&str>) -> (r: String)
    ensures
        match home {
            Some(h) => r@ == home_replaced(tilde_expanded(path@, h@), h@),
            None => r@ == path@,
        },
{
    match home {
        None => path.to_owned(),
        Some(h) => {
            proof {
                reveal_strlit("~/");
            }
            let base: String = if str_starts_with(path, "~/") {
                let mut b = h.to_owned();
                let tail = str_suffix_from(path, 1);
                b.append(tail.as_str());
                proof {
                    assert(path@.subrange(0, 2)[0] == path@[0]);
                    assert(path@.subrange(0, 2)[1] == path@[1]);
                    assert(b@ == tilde_expanded(path@, h@));
                }
                b
            } else {
                proof {
                    if path@.len() >= 2 && path@[0] == '~' && path@[1] == '/' {
                        assert(path@.subrange(0, 2) =~= "~/"@);
                    }
                }
                path.to_owned()
            };
            replace_home_var(base.as_str(), h)
        },
    }
}

/// The ids of the tools a detection run found installed, in detection
/// order.
pub fn installed_ids_of(detections: &Vec<CliToolDetection>) -> (r: Vec<String>)
    ensures
        r.deep_view() == detections@.filter(|d: CliToolDetection| d.installed).map_values(
            |d: CliToolDetection| d.template_id@,
        ),
{
    let ghost pred = |d: CliToolDetection| d.installed;
    let ghost toid = |d: CliToolDetection| d.template_id@;
    let n = detections.len();
    let mut r: Vec<String> = Vec::new();
    proof {
        assert(detections@.take(0) =~= Seq::<CliToolDetection>::empty());
        assert(Seq::<CliToolDetection>::empty().filter(pred) =~= Seq::<
            CliToolDetection,
        >::empty());
        assert(r.deep_view() =~= Seq::<CliToolDetection>::empty().filter(pred).map_values(toid));
    }
    for i in 0..n
        invariant
            n == detections@.len(),
            pred == (|d: CliToolDetection| d.installed),
            toid == (|d: CliToolDetection| d.template_id@),
            r.deep_view() == detections@.take(i as int).filter(pred).map_values(toid),
    {
        let ghost old_rdv = r.deep_view();
        let keep = detections[i].installed;
        if keep {
            r.push(detections[i].template_id.clone());
            proof {
                assert(r.deep_view() =~= old_rdv.push(detections@[i as int].template_id@));
            }
        }
        proof {
            let prefix = detections@.take(i as int);
            assert(detections@.take(i + 1) =~= prefix.push(detections@[i as int]));
            prefix.lemma_filter_push(detections@[i as int], pred);
            if keep {
                prefix.filter(pred).lemma_push_map_commute(toid, detections@[i as int]);
                assert(r.deep_view() =~= detections@.take(i + 1).filter(pred).map_values(toid));
            }
        }
    }
    proof {
        assert(detections@.take(n as int) =~= detections@);
    }
    r
}

} // verus!
