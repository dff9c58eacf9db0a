//! Path reasoning on canonical textual paths: component-wise prefix tests,
//! resolution of a symlink's destination against its directory, membership
//! of a destination in a set of sources, and home-directory abbreviation
//! for display.
use vstd::prelude::*;
use vstd::string::StrSliceExecFns;
use vstd::string::StringExecFns;

use crate::text::{has_prefix, starts_with_str, str_eq};

verus! {

/// `p` is a component-wise prefix of `q`: the paths are equal, or `q`
/// continues below `p` with a separator — which `p` brings along itself
/// when it already ends in one, as the root does.
pub open spec fn is_path_prefix(p: Seq<char>, q: Seq<char>) -> bool {
    p == q || has_prefix(q, p + seq!['/']) || (p.len() > 0 && p.last() == '/' && has_prefix(q, p))
}

/// Whether `p` is a component-wise prefix of `q`.
pub fn path_starts_with(q: &str, p: &str) -> (r: bool)
    ensures
        r == is_path_prefix(p@, q@),
{
    if str_eq(q, p) {
        return true;
    }
    let pre = p.to_owned().concat("/");
    proof {
        reveal_strlit("/");
        assert(pre@ =~= p@ + seq!['/']);
    }
    if starts_with_str(q, pre.as_str()) {
        return true;
    }
    let m = p.unicode_len();
    m > 0 && p.get_char(m - 1) == '/' && starts_with_str(q, p)
}

/// Where a symlink found in `dir` points: an absolute destination stands
/// alone, a relative one is joined below `dir`.
pub fn resolve_link_destination(dir: &str, link: &str) -> (r: String)
    ensures
        link@.len() > 0 && link@[0] == '/' ==> r@ == link@,
        !(link@.len() > 0 && link@[0] == '/') ==> r@ == dir@ + seq!['/'] + link@,
{
    let n = link.unicode_len();
    if n > 0 && link.get_char(0) == '/' {
        link.to_owned()
    } else {
        let r = dir.to_owned().concat("/").concat(link);
        proof {
            reveal_strlit("/");
            assert(r@ =~= dir@ + seq!['/'] + link@);
        }
        r
    }
}

/// Whether a link destination lies inside one of the given sources.
pub fn link_points_into_sources(dest: &str, sources: &Vec<String>) -> (r: bool)
    ensures
        r == exists|i: int|
            0 <= i < sources@.len() && is_path_prefix(sources.deep_view()[i], dest@),
{
    let n = sources.len();
    let mut i: usize = 0;
    while i < n
        invariant
            i <= n,
            n == sources@.len(),
            forall|k: int| 0 <= k < i ==> !is_path_prefix(sources.deep_view()[k], dest@),
        decreases n - i,
    {
        if path_starts_with(dest, sources[i].as_str()) {
            proof {
                assert(is_path_prefix(sources.deep_view()[i as int], dest@));
            }
            return true;
        }
        i += 1;
    }
    false
}

/// A path for display: the home directory and everything under it is
/// written below `~`, any other path stands as it is. A home that already
/// ends in a separator (the root, in practice) needs no separator of its
/// own before what follows it.
pub open spec fn spec_abbreviate(path: Seq<char>, home: Seq<char>) -> Seq<char> {
    if path == home {
        seq!['~', '/']
    } else if has_prefix(path, home + seq!['/']) {
        seq!['~', '/'] + path.skip(home.len() as int + 1)
    } else if home.len() > 0 && home.last() == '/' && has_prefix(path, home) {
        seq!['~', '/'] + path.skip(home.len() as int)
    } else {
        path
    }
}

/// Abbreviates a path under the given home directory for display.
pub fn abbreviate_path(path: &str, home: &str) -> (r: String)
    ensures
        r@ == spec_abbreviate(path@, home@),
{
    if str_eq(path, home) {
        let r = String::from_str("~/");
        proof {
            reveal_strlit("~/");
            assert(r@ =~= seq!['~', '/']);
        }
        return r;
    }
    let pre = home.to_owned().concat("/");
    proof {
        reveal_strlit("/");
        assert(pre@ =~= home@ + seq!['/']);
    }
    let n = path.unicode_len();
    let h = home.unicode_len();
    if starts_with_str(path, pre.as_str()) {
        let rest = path.substring_char(h + 1, n);
        let r = String::from_str("~/").concat(rest);
        proof {
            reveal_strlit("~/");
            assert(rest@ =~= path@.skip(home@.len() as int + 1));
            assert(r@ =~= seq!['~', '/'] + path@.skip(home@.len() as int + 1));
        }
        r
    } else if h > 0 && home.get_char(h - 1) == '/' && starts_with_str(path, home) {
        let rest = path.substring_char(h, n);
        let r = String::from_str("~/").concat(rest);
        proof {
            reveal_strlit("~/");
            assert(rest@ =~= path@.skip(home@.len() as int));
            assert(r@ =~= seq!['~', '/'] + path@.skip(home@.len() as int));
        }
        r
    } else {
        path.to_owned()
    }
}

} // verus!
