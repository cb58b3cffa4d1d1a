//! Small character-level helpers over string slices.
use vstd::prelude::*;
use vstd::string::StrSliceExecFns;

verus! {

/// Whether two string slices hold the same characters.
pub fn str_eq(a: &str, b: &str) -> (r: bool)
    ensures
        r == (a@ == b@),
{
    let sa: String = a.to_owned();
    let sb: String = b.to_owned();
    sa == sb
}

/// Whether a vector of strings contains the given characters.
pub fn names_contain(v: &Vec<String>, x: &str) -> (r: bool)
    ensures
        r == v.deep_view().contains(x@),
{
    let n = v.len();
    for i in 0..n
        invariant
            n == v@.len(),
            forall|j: int| 0 <= j < i ==> v.deep_view()[j] != x@,
    {
        if str_eq(v[i].as_str(), x) {
            assert(v.deep_view()[i as int] == x@);
            return true;
        }
    }
    proof {
        if v.deep_view().contains(x@) {
            let k = choose|k: int| 0 <= k < v.deep_view().len() && v.deep_view()[k] == x@;
            assert(v.deep_view()[k] != x@);
        }
    }
    false
}

/// Whether the string holds the given character.
pub fn str_contains_char(s: &str, c: char) -> (b: bool)
    ensures
        b == s@.contains(c),
{
    let l = s.unicode_len();
    for i in 0..l
        invariant
            l == s@.len(),
            forall|j: int| 0 <= j < i ==> s@[j] != c,
    {
        if s.get_char(i) == c {
            assert(s@[i as int] == c);
            return true;
        }
    }
    proof {
        if s@.contains(c) {
            let j = choose|j: int| 0 <= j < s@.len() && s@[j] == c;
        }
    }
    false
}

/// Whether `s` begins with the characters of `p`.
pub fn str_starts_with(s: &str, p: &str) -> (b: bool)
    ensures
        b == (s@.len() >= p@.len() && s@.subrange(0, p@.len() as int) == p@),
{
    let sl = s.unicode_len();
    let pl = p.unicode_len();
    if sl < pl {
        return false;
    }
    for i in 0..pl
        invariant
            sl == s@.len(),
            pl == p@.len(),
            sl >= pl,
            forall|j: int| 0 <= j < i ==> s@[j] == p@[j],
    {
        if s.get_char(i) != p.get_char(i) {
            proof {
                if s@.subrange(0, p@.len() as int) == p@ {
                    assert(s@.subrange(0, p@.len() as int)[i as int] == s@[i as int]);
                }
            }
            return false;
        }
    }
    proof {
        assert(s@.subrange(0, p@.len() as int) =~= p@);
    }
    true
}

/// The position of the last occurrence of `c` in `s`, if any.
pub fn str_last_index_of(s: &str, c: char) -> (r: Option<usize>)
    ensures
        match r {
            Some(i) => (i as int) < s@.len() && s@[i as int] == c && forall|j: int|
                i < j < s@.len() ==> s@[j] != c,
            None => !s@.contains(c),
        },
{
    let l = s.unicode_len();
    let mut found: Option<usize> = None;
    for i in 0..l
        invariant
            l == s@.len(),
            match found {
                Some(k) => (k as int) < i && s@[k as int] == c && forall|j: int|
                    k < j < i ==> s@[j] != c,
                None => forall|j: int| 0 <= j < i ==> s@[j] != c,
            },
    {
        if s.get_char(i) == c {
            found = Some(i);
        }
    }
    proof {
        if found is None && s@.contains(c) {
            let j = choose|j: int| 0 <= j < s@.len() && s@[j] == c;
        }
    }
    found
}

/// The number of characters in a string slice.
pub fn str_unicode_len(s: &str) -> (l: usize)
    ensures
        l as int == s@.len(),
{
    s.unicode_len()
}

/// The position of the last slash in a character sequence, if any.
pub open spec fn last_slash_position(s: Seq<char>) -> Option<int> {
    if s.contains('/') {
        Some(
            choose|i: int|
                0 <= i < s.len() && s[i] == '/' && (forall|j: int|
                    i < j < s.len() ==> s[j] != '/'),
        )
    } else {
        None
    }
}

/// The characters of `s` from position `from` on, as an owned string.
pub fn str_suffix_from(s: &str, from: usize) -> (r: String)
    requires
        from as int <= s@.len(),
    ensures
        r@ == s@.skip(from as int),
{
    let l = s.unicode_len();
    let part = s.substring_char(from, l);
    proof {
        assert(part@ =~= s@.skip(from as int));
    }
    part.to_owned()
}

} // verus!
