//! The computations of installation handling: reading the cask listing
//! that a package manager prints, and cask membership.
use vstd::prelude::*;
use vstd::string::StrSliceExecFns;
use crate::text::names_contain;

verus! {

/// The position of the first line break, or the length when there is
/// none.
pub open spec fn first_newline(s: Seq<char>) -> nat
    decreases s.len(),
{
    if s.len() == 0 {
        0
    } else if s[0] == '\n' {
        0
    } else {
        1 + first_newline(s.drop_first())
    }
}

proof fn lemma_first_newline(s: Seq<char>)
    ensures
        first_newline(s) <= s.len(),
        first_newline(s) < s.len() ==> s[first_newline(s) as int] == '\n',
        forall|j: int| 0 <= j < first_newline(s) ==> s[j] != '\n',
    decreases s.len(),
{
    if s.len() > 0 && s[0] != '\n' {
        let rest = s.drop_first();
        lemma_first_newline(rest);
        assert(forall|j: int| 0 <= j < rest.len() ==> rest[j] == s[j + 1]);
        assert forall|j: int| 0 <= j < first_newline(s) implies s[j] != '\n' by {
            if j > 0 {
                assert(rest[j - 1] != '\n');
            }
        }
    }
}

/// A line with a trailing carriage return removed.
pub open spec fn strip_cr(t: Seq<char>) -> Seq<char> {
    if t.len() >= 1 && t.last() == '\r' {
        t.drop_last()
    } else {
        t
    }
}

/// The lines of a text, as the standard line iterator yields them: split
/// at line breaks, trailing carriage returns removed, no final empty line
/// after a trailing break.
pub open spec fn split_lines(s: Seq<char>) -> Seq<Seq<char>>
    decreases s.len(),
{
    if s.len() == 0 {
        Seq::empty()
    } else {
        let k = first_newline(s);
        seq![strip_cr(s.take(k as int))] + (if k < s.len() {
            split_lines(s.skip(k as int + 1))
        } else {
            Seq::empty()
        })
    }
}

/// The non-empty lines of a cask listing, in order.
pub fn parse_cask_list(output: &str) -> (r: Vec<String>)
    ensures
        r.deep_view() == split_lines(output@).filter(|l: Seq<char>| l.len() != 0),
{
    let ghost pred = |l: Seq<char>| l.len() != 0;
    let l = output.unicode_len();
    let mut r: Vec<String> = Vec::new();
    let mut i: usize = 0;
    let ghost mut done: Seq<Seq<char>> = Seq::empty();
    proof {
        assert(output@.skip(0) =~= output@);
        assert(done + split_lines(output@.skip(0)) =~= split_lines(output@));
        assert(done.filter(pred) =~= Seq::<Seq<char>>::empty());
        assert(r.deep_view() =~= done.filter(pred));
    }
    while i < l
        invariant
            l == output@.len(),
            0 <= i <= l,
            pred == (|l2: Seq<char>| l2.len() != 0),
            done + split_lines(output@.skip(i as int)) == split_lines(output@),
            r.deep_view() == done.filter(pred),
        decreases l - i,
    {
        let ghost rem = output@.skip(i as int);
        proof {
            assert(forall|j: int| 0 <= j < rem.len() ==> rem[j] == output@[i + j]);
        }
        // find the end of the current line
        let mut k = i;
        while k < l && output.get_char(k) != '\n'
            invariant
                l == output@.len(),
                0 <= i <= k <= l,
                forall|j: int| i <= j < k ==> output@[j] != '\n',
            decreases l - k,
        {
            k = k + 1;
        }
        proof {
            lemma_first_newline(rem);
            assert(first_newline(rem) == k - i) by {
                let fk = first_newline(rem) as int;
                if fk < k - i {
                    assert(output@[i + fk] != '\n');
                    assert(rem[fk] == '\n');
                }
                if fk > k - i {
                    assert(k < l);
                    assert(rem[k - i] == output@[k as int]);
                    assert(rem[k - i] != '\n');
                }
            }
        }
        // the line itself, with a trailing carriage return removed
        let mut line_end = k;
        if line_end > i && output.get_char(line_end - 1) == '\r' {
            line_end = line_end - 1;
        }
        let line = output.substring_char(i, line_end);
        proof {
            let raw = rem.take(k - i);
            assert(forall|j: int| 0 <= j < raw.len() ==> raw[j] == output@[i + j]);
            if k > i && output@[k - 1] == '\r' {
                assert(raw.last() == '\r');
                assert(strip_cr(raw) =~= raw.drop_last());
                assert(line@ =~= strip_cr(raw));
            } else {
                if raw.len() >= 1 && raw.last() == '\r' {
                    assert(output@[i + (raw.len() - 1)] == '\r');
                    assert(false);
                }
                assert(line@ =~= strip_cr(raw));
            }
        }
        let ghost old_done = done;
        let ghost old_rdv = r.deep_view();
        if line_end > i {
            r.push(line.to_owned());
            proof {
                assert(r.deep_view() =~= old_rdv.push(line@));
            }
        }
        proof {
            let raw = rem.take(k - i);
            assert(split_lines(rem) == seq![strip_cr(raw)] + (if k - i < rem.len() {
                split_lines(rem.skip(k - i + 1))
            } else {
                Seq::<Seq<char>>::empty()
            }));
            done = old_done.push(strip_cr(raw));
            old_done.lemma_filter_push(strip_cr(raw), pred);
            assert(line@ == strip_cr(raw));
            if line_end > i {
                assert(pred(strip_cr(raw)));
                assert(r.deep_view() =~= done.filter(pred));
            } else {
                assert(strip_cr(raw).len() == 0);
                assert(!pred(strip_cr(raw)));
                assert(r.deep_view() =~= done.filter(pred));
            }
            // the remainder after this line
            if k < l {
                assert(rem.skip(k - i + 1) =~= output@.skip(k + 1));
                assert(done + split_lines(output@.skip(k + 1)) =~= split_lines(output@)) by {
                    assert(old_done + (seq![strip_cr(raw)] + split_lines(rem.skip(k - i + 1)))
                        =~= (old_done.push(strip_cr(raw))) + split_lines(rem.skip(k - i + 1)));
                }
            } else {
                assert(rem.len() == l - i);
                assert(k - i == rem.len());
                assert(split_lines(rem) =~= seq![strip_cr(raw)]);
                assert(done + Seq::<Seq<char>>::empty() =~= done);
                assert(output@.skip(l as int) =~= Seq::<char>::empty());
                assert(split_lines(output@.skip(l as int)) =~= Seq::<Seq<char>>::empty());
                assert(done + split_lines(output@.skip(l as int)) =~= split_lines(output@)) by {
                    assert(old_done + seq![strip_cr(raw)] =~= old_done.push(strip_cr(raw)));
                }
            }
        }
        if k < l {
            i = k + 1;
        } else {
            i = l;
        }
    }
    proof {
        assert(output@.skip(l as int) =~= Seq::<char>::empty());
        assert(split_lines(Seq::<char>::empty()) =~= Seq::<Seq<char>>::empty());
        assert(done =~= split_lines(output@));
    }
    r
}

/// Whether a specific cask appears in the installed listing.
pub fn is_cask_installed(cask_name: &str, installed_casks: &Vec<String>) -> (b: bool)
    ensures
        b == installed_casks.deep_view().contains(cask_name@),
{
    names_contain(installed_casks, cask_name)
}

} // verus!
