//! Helpers on `/`-separated path strings: final components, segment-aware
//! prefix tests, and relative names.

use vstd::prelude::*;
use vstd::string::*;

verus! {

/// The characters after the last `/` of `s`; all of `s` when no `/` occurs.
pub open spec fn after_last_slash(s: Seq<char>) -> Seq<char>
    decreases s.len(),
{
    if s.len() == 0 {
        s
    } else if s.last() == '/' {
        Seq::empty()
    } else {
        after_last_slash(s.drop_last()).push(s.last())
    }
}

/// The display name drawn from a path: its final component, or the whole
/// path when nothing follows the last separator.
pub open spec fn file_name_of(s: Seq<char>) -> Seq<char> {
    if after_last_slash(s).len() == 0 {
        s
    } else {
        after_last_slash(s)
    }
}

proof fn lemma_after_last_slash_at(s: Seq<char>, j: int)
    requires
        0 <= j <= s.len(),
        forall|k: int| j <= k < s.len() ==> s[k] != '/',
        j == 0 || s[j - 1] == '/',
    ensures
        after_last_slash(s) == s.subrange(j, s.len() as int),
    decreases s.len(),
{
    if s.len() == 0 {
        assert(after_last_slash(s) =~= s.subrange(0, 0));
    } else if j == s.len() {
        assert(s.last() == '/');
        assert(after_last_slash(s) =~= s.subrange(j, s.len() as int));
    } else {
        assert(s.last() != '/');
        let t = s.drop_last();
        assert(forall|k: int| j <= k < t.len() ==> t[k] == s[k]);
        lemma_after_last_slash_at(t, j);
        assert(after_last_slash(s) =~= s.subrange(j, s.len() as int));
    }
}

/// Index just past the last `/` of `path`, or 0 when none occurs.
fn after_last_slash_start(path: &str) -> (j: usize)
    ensures
        j <= path@.len(),
        after_last_slash(path@) == path@.subrange(j as int, path@.len() as int),
{
    let n = path.unicode_len();
    let mut j = n;
    while j > 0 && path.get_char(j - 1) != '/'
        invariant
            j <= n,
            n == path@.len(),
            forall|k: int| j <= k < n ==> path@[k] != '/',
        decreases j,
    {
        j = j - 1;
    }
    proof {
        lemma_after_last_slash_at(path@, j as int);
    }
    j
}

/// The final path component of `path`, or the whole path when nothing
/// follows the last `/` (a bare `/`, a trailing separator, an empty string).
pub fn file_name(path: &str) -> (r: String)
    ensures
        r@ == file_name_of(path@),
{
    let n = path.unicode_len();
    let j = after_last_slash_start(path);
    if j == n {
        path.to_owned()
    } else {
        path.substring_char(j, n).to_owned()
    }
}

/// The final path component of `path`, or `/` when nothing follows the
/// last separator (the root, a trailing separator, an empty string).
pub fn file_name_or_root(path: &str) -> (r: String)
    ensures
        r@ == (if after_last_slash(path@).len() == 0 {
            "/"@
        } else {
            after_last_slash(path@)
        }),
{
    let n = path.unicode_len();
    let j = after_last_slash_start(path);
    if j == n {
        "/".to_owned()
    } else {
        path.substring_char(j, n).to_owned()
    }
}

/// Segment-aware containment: `dir` is a character prefix of `p` and the
/// match ends at a segment boundary, so `/foo` covers `/foo/bar` and `/foo`
/// itself but not `/foobar`.
pub open spec fn is_path_prefix(dir: Seq<char>, p: Seq<char>) -> bool {
    &&& dir.len() <= p.len()
    &&& p.subrange(0, dir.len() as int) == dir
    &&& (p.len() == dir.len() || p[dir.len() as int] == '/' || (dir.len() > 0 && dir.last()
        == '/'))
}

fn is_char_prefix(p: &str, dir: &str) -> (b: bool)
    ensures
        b == (dir@.len() <= p@.len() && p@.subrange(0, dir@.len() as int) == dir@),
{
    let dn = dir.unicode_len();
    let pn = p.unicode_len();
    if dn > pn {
        return false;
    }
    let mut i: usize = 0;
    while i < dn
        invariant
            i <= dn <= pn,
            dn == dir@.len(),
            pn == p@.len(),
            forall|k: int| 0 <= k < i ==> p@[k] == dir@[k],
        decreases dn - i,
    {
        if p.get_char(i) != dir.get_char(i) {
            proof {
                assert(p@.subrange(0, dn as int)[i as int] != dir@[i as int]);
            }
            return false;
        }
        i = i + 1;
    }
    proof {
        assert(p@.subrange(0, dn as int) =~= dir@);
    }
    true
}

/// Whether `p` lies under the directory `dir`, segment-wise.
pub fn path_starts_with(p: &str, dir: &str) -> (b: bool)
    ensures
        b == is_path_prefix(dir@, p@),
{
    let dn = dir.unicode_len();
    let pn = p.unicode_len();
    if !is_char_prefix(p, dir) {
        return false;
    }
    if pn == dn {
        return true;
    }
    if p.get_char(dn) == '/' {
        return true;
    }
    if dn > 0 && dir.get_char(dn - 1) == '/' {
        return true;
    }
    false
}

/// The path `p` made relative to `dir`: the remainder after the covering
/// prefix and its separator; `p` itself when `dir` does not properly cover
/// it.
pub open spec fn rel_to(dir: Seq<char>, p: Seq<char>) -> Seq<char> {
    if is_path_prefix(dir, p) && dir.len() < p.len() {
        if p[dir.len() as int] == '/' {
            p.subrange(dir.len() as int + 1, p.len() as int)
        } else {
            p.subrange(dir.len() as int, p.len() as int)
        }
    } else {
        p
    }
}

/// The display name of a directory-expanded entry: `p` relative to the
/// directory `dir`, falling back to the full path.
pub fn relative_name(p: &str, dir: &str) -> (r: String)
    ensures
        r@ == rel_to(dir@, p@),
{
    let dn = dir.unicode_len();
    let pn = p.unicode_len();
    if path_starts_with(p, dir) && dn < pn {
        if p.get_char(dn) == '/' {
            p.substring_char(dn + 1, pn).to_owned()
        } else {
            p.substring_char(dn, pn).to_owned()
        }
    } else {
        p.to_owned()
    }
}

} // verus!
