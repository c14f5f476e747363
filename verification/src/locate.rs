//! Locating candidate production-output directories among the
//! directories of a tree. Two predicate styles are supported: a glob
//! pattern matched case-insensitively against the full path, and a
//! structural predicate over the path's segments. The caller hands in
//! the directory paths of the tree (traversal is a filesystem concern);
//! the locator decides which of them qualify.

use vstd::prelude::*;

use crate::strings::ci_contains;
use crate::strings::ci_contains_exec;
use crate::strings::contains_str;
use crate::strings::last_index_of;
use crate::strings::lemma_last_index_of;
use crate::strings::rfind_char;
use crate::strings::str_eq;
use crate::strings::views_of;

verus! {

/// The error returned when a glob pattern does not compile.
#[derive(Clone, Copy, Debug, PartialEq, Eq, Structural)]
pub struct PatternError;

/// Whether a glob pattern is syntactically well formed, as
/// `glob::Pattern::new` decides it: a function of the pattern's
/// characters alone.
pub uninterp spec fn glob_pattern_ok(pattern: Seq<char>) -> bool;

/// Whether a path matches a well-formed glob pattern, compared
/// case-insensitively, with `*` confined to one path segment and `**`
/// spanning arbitrarily many: a function of the two character
/// sequences alone.
pub uninterp spec fn glob_match(pattern: Seq<char>, path: Seq<char>) -> bool;

/// Relies on `glob::Pattern::new`: whether a pattern compiles is
/// decided by its characters alone.
#[verifier::external_body]
fn glob_pattern_is_ok(pattern: &str) -> (r: bool)
    ensures
        r == glob_pattern_ok(pattern@),
{
    glob::Pattern::new(pattern).is_ok()
}

/// Relies on `glob::Pattern::new` and `glob::Pattern::matches_with`:
/// with fixed options (case folded away, separators literal so that `*`
/// stays within one segment, no special leading dot) the outcome is a
/// function of the pattern's and the path's characters alone.
#[verifier::external_body]
fn glob_match_exec(pattern: &str, path: &str) -> (r: bool)
    requires
        glob_pattern_ok(pattern@),
    ensures
        r == glob_match(pattern@, path@),
{
    let options = glob::MatchOptions {
        case_sensitive: false,
        require_literal_separator: true,
        require_literal_leading_dot: false,
    };
    match glob::Pattern::new(pattern) {
        Ok(p) => p.matches_with(path, options),
        Err(_) => false,
    }
}

/// A pattern with its trailing separators removed. A trailing separator
/// only says that the match must be a directory, which every candidate
/// here is.
pub open spec fn strip_trailing_seps(p: Seq<char>) -> Seq<char>
    decreases p.len(),
{
    if p.len() > 0 && p.last() == '/' {
        strip_trailing_seps(p.drop_last())
    } else {
        p
    }
}

fn strip_trailing_separators(p: &str) -> (r: String)
    ensures
        r@ == strip_trailing_seps(p@),
{
    let len = p.unicode_len();
    let mut end: usize = len;
    assert(p@.take(len as int) =~= p@);
    while end > 0 && p.get_char(end - 1) == '/'
        invariant
            end <= len,
            len == p@.len(),
            strip_trailing_seps(p@) == strip_trailing_seps(p@.take(end as int)),
        decreases end,
    {
        assert(p@.take(end as int).drop_last() =~= p@.take(end as int - 1));
        end = end - 1;
    }
    let r = p.substring_char(0, end).to_owned();
    assert(r@ =~= p@.take(end as int));
    r
}

/// The candidates that match the pattern, in the order they were given.
pub open spec fn glob_filter(pattern: Seq<char>, candidates: Seq<Seq<char>>) -> Seq<Seq<char>>
    decreases candidates.len(),
{
    if candidates.len() == 0 {
        Seq::empty()
    } else if glob_match(pattern, candidates.last()) {
        glob_filter(pattern, candidates.drop_last()) + seq![candidates.last()]
    } else {
        glob_filter(pattern, candidates.drop_last())
    }
}

/// Locate production directories by glob: the pattern is the root name
/// followed by the suffix pattern, and a candidate qualifies when its
/// full path matches it, case aside. Returns `PatternError` exactly
/// when the combined pattern (trailing separators aside) does not
/// compile; otherwise the matching candidates, in the given order.
pub fn prod_dirs(dir_name: &str, output_dir: &str, candidates: &Vec<String>) -> (r: Result<
    Vec<String>,
    PatternError,
>)
    ensures
        (r is Ok) == glob_pattern_ok(strip_trailing_seps(dir_name@ + output_dir@)),
        r matches Ok(v) ==> views_of(v@) == glob_filter(
            strip_trailing_seps(dir_name@ + output_dir@),
            views_of(candidates@),
        ),
{
    let mut full = String::from_str(dir_name);
    full.append(output_dir);
    let pattern = strip_trailing_separators(full.as_str());
    if !glob_pattern_is_ok(pattern.as_str()) {
        return Err(PatternError);
    }
    let n = candidates.len();
    let mut out: Vec<String> = Vec::new();
    let mut i: usize = 0;
    assert(views_of(candidates@).take(0) =~= Seq::<Seq<char>>::empty());
    while i < n
        invariant
            i <= n,
            n == candidates@.len(),
            glob_pattern_ok(pattern@),
            pattern@ == strip_trailing_seps(dir_name@ + output_dir@),
            views_of(out@) == glob_filter(pattern@, views_of(candidates@).take(i as int)),
        decreases n - i,
    {
        let ghost prefix = views_of(candidates@).take(i as int + 1);
        assert(prefix.drop_last() =~= views_of(candidates@).take(i as int));
        assert(prefix.last() == candidates@[i as int]@);
        let ghost out_old = out@;
        if glob_match_exec(pattern.as_str(), candidates[i].as_str()) {
            out.push(candidates[i].clone());
            assert(views_of(out@) =~= views_of(out_old) + seq![candidates@[i as int]@]);
        }
        i = i + 1;
    }
    assert(views_of(candidates@).take(n as int) =~= views_of(candidates@));
    Ok(out)
}

/// Locating is deterministic: two runs of the locator over the same
/// pattern and the same candidate paths yield the same result.
pub proof fn lemma_locate_deterministic(
    pattern: Seq<char>,
    candidates: Seq<Seq<char>>,
    r1: Seq<Seq<char>>,
    r2: Seq<Seq<char>>,
)
    requires
        r1 == glob_filter(pattern, candidates),
        r2 == glob_filter(pattern, candidates),
    ensures
        r1 == r2,
{
}

/// The segments of a path, split at `/`.
pub open spec fn segments(p: Seq<char>) -> Seq<Seq<char>>
    decreases p.len(),
{
    let li = last_index_of(p, '/');
    if li < 0 || li >= p.len() {
        seq![p]
    } else {
        segments(p.take(li)) + seq![p.skip(li + 1)]
    }
}

/// Split a path into its segments.
pub fn split_segments(p: &str) -> (r: Vec<String>)
    ensures
        views_of(r@) == segments(p@),
    decreases p@.len(),
{
    proof {
        lemma_last_index_of(p@, '/');
    }
    let len = p.unicode_len();
    match rfind_char(p, '/') {
        Some(li) => {
            let head = p.substring_char(0, li);
            assert(head@ =~= p@.take(li as int));
            let mut v = split_segments(head);
            let tail = p.substring_char(li + 1, len).to_owned();
            assert(tail@ =~= p@.skip(li as int + 1));
            let ghost v_old = v@;
            v.push(tail);
            assert(views_of(v@) =~= views_of(v_old) + seq![p@.skip(li as int + 1)]);
            v
        },
        None => {
            let mut v: Vec<String> = Vec::new();
            v.push(p.to_owned());
            assert(views_of(v@) =~= seq![p@]);
            v
        },
    }
}

/// The structural predicate: a directory qualifies when its path holds
/// a segment containing the token (case aside), an exact segment
/// `prod`, an exact segment `data_analysis` (in any positions), and its
/// own name equals the target.
pub open spec fn structural_match(path: Seq<char>, token: Seq<char>, target: Seq<char>) -> bool {
    let segs = segments(path);
    &&& exists|i: int| 0 <= i < segs.len() && ci_contains(#[trigger] segs[i], token)
    &&& segs.contains("prod"@)
    &&& segs.contains("data_analysis"@)
    &&& segs.last() == target
}

/// Decide the structural predicate for one path.
pub fn structural_match_exec(path: &str, token: &str, target: &str) -> (r: bool)
    ensures
        r == structural_match(path@, token@, target@),
{
    let segs = split_segments(path);
    let n = segs.len();
    assert(n == segments(path@).len());
    assert(n >= 1) by {
        lemma_segments_nonempty(path@);
    }
    let mut has_token = false;
    let mut i: usize = 0;
    while i < n
        invariant
            i <= n,
            n == segs@.len(),
            views_of(segs@) == segments(path@),
            has_token == exists|k: int|
                0 <= k < i && ci_contains(#[trigger] segments(path@)[k], token@),
        decreases n - i,
    {
        if ci_contains_exec(segs[i].as_str(), token) {
            assert(ci_contains(segments(path@)[i as int], token@));
            has_token = true;
        }
        i = i + 1;
    }
    let has_prod = contains_str(&segs, "prod");
    let has_da = contains_str(&segs, "data_analysis");
    let own_name = str_eq(segs[n - 1].as_str(), target);
    assert(segs@[n as int - 1]@ == segments(path@).last());
    has_token && has_prod && has_da && own_name
}

proof fn lemma_segments_nonempty(p: Seq<char>)
    ensures
        segments(p).len() >= 1,
    decreases p.len(),
{
    lemma_last_index_of(p, '/');
    let li = last_index_of(p, '/');
    if !(li < 0 || li >= p.len()) {
        lemma_segments_nonempty(p.take(li));
    }
}

/// The candidates accepted by the structural predicate, in the order
/// they were given.
pub open spec fn structural_filter(
    candidates: Seq<Seq<char>>,
    token: Seq<char>,
    target: Seq<char>,
) -> Seq<Seq<char>>
    decreases candidates.len(),
{
    if candidates.len() == 0 {
        Seq::empty()
    } else if structural_match(candidates.last(), token, target) {
        structural_filter(candidates.drop_last(), token, target) + seq![candidates.last()]
    } else {
        structural_filter(candidates.drop_last(), token, target)
    }
}

/// Locate production directories structurally: walk the given candidate
/// paths and keep those the structural predicate accepts.
pub fn structural_dirs(candidates: &Vec<String>, token: &str, target: &str) -> (r: Vec<String>)
    ensures
        views_of(r@) == structural_filter(views_of(candidates@), token@, target@),
{
    let n = candidates.len();
    let mut out: Vec<String> = Vec::new();
    let mut i: usize = 0;
    assert(views_of(candidates@).take(0) =~= Seq::<Seq<char>>::empty());
    while i < n
        invariant
            i <= n,
            n == candidates@.len(),
            views_of(out@) == structural_filter(
                views_of(candidates@).take(i as int),
                token@,
                target@,
            ),
        decreases n - i,
    {
        let ghost prefix = views_of(candidates@).take(i as int + 1);
        assert(prefix.drop_last() =~= views_of(candidates@).take(i as int));
        assert(prefix.last() == candidates@[i as int]@);
        let ghost out_old = out@;
        if structural_match_exec(candidates[i].as_str(), token, target) {
            out.push(candidates[i].clone());
            assert(views_of(out@) =~= views_of(out_old) + seq![candidates@[i as int]@]);
        }
        i = i + 1;
    }
    assert(views_of(candidates@).take(n as int) =~= views_of(candidates@));
    out
}

} // verus!
