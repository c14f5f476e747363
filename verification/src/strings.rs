//! Shared string machinery: searching for the last occurrence of a
//! character, lexicographic ordering of character sequences, and a few
//! small helpers over vectors of strings.

use vstd::prelude::*;

verus! {

/// The views of a sequence of strings.
pub open spec fn views_of(v: Seq<String>) -> Seq<Seq<char>> {
    v.map_values(|s: String| s@)
}

/// The largest index at which `c` occurs in `s`, or `-1` if it does not
/// occur at all.
pub open spec fn last_index_of(s: Seq<char>, c: char) -> int
    decreases s.len(),
{
    if s.len() == 0 {
        -1
    } else if s.last() == c {
        s.len() - 1
    } else {
        last_index_of(s.drop_last(), c)
    }
}

/// `last_index_of` points at an occurrence of `c`, and nothing after it
/// is an occurrence.
pub proof fn lemma_last_index_of(s: Seq<char>, c: char)
    ensures
        last_index_of(s, c) >= 0 ==> last_index_of(s, c) < s.len() && s[last_index_of(s, c)] == c,
        forall|k: int| last_index_of(s, c) < k < s.len() ==> s[k] != c,
        last_index_of(s, c) >= -1,
    decreases s.len(),
{
    if s.len() > 0 && s.last() != c {
        lemma_last_index_of(s.drop_last(), c);
        assert(forall|k: int| 0 <= k < s.len() - 1 ==> s[k] == s.drop_last()[k]);
    }
}

/// Find the last occurrence of `c` in `s`, scanning from the end.
pub fn rfind_char(s: &str, c: char) -> (r: Option<usize>)
    ensures
        match r {
            Some(i) => last_index_of(s@, c) == i as int,
            None => last_index_of(s@, c) == -1,
        },
{
    let len = s.unicode_len();
    let mut i: usize = len;
    assert(s@.take(len as int) =~= s@);
    while i > 0 && s.get_char(i - 1) != c
        invariant
            i <= len,
            len == s@.len(),
            last_index_of(s@, c) == last_index_of(s@.take(i as int), c),
        decreases i,
    {
        assert(s@.take(i as int).drop_last() =~= s@.take(i as int - 1));
        i = i - 1;
    }
    if i > 0 {
        assert(s@.take(i as int).last() == s@[i as int - 1]);
        Some(i - 1)
    } else {
        None
    }
}

/// Strict lexicographic order on character sequences, comparing code
/// points from the front; a proper prefix comes before its extensions.
pub open spec fn lex_lt(a: Seq<char>, b: Seq<char>) -> bool
    decreases a.len(),
{
    if b.len() == 0 {
        false
    } else if a.len() == 0 {
        true
    } else if a[0] != b[0] {
        a[0] < b[0]
    } else {
        lex_lt(a.skip(1), b.skip(1))
    }
}

/// Two sequences are either ordered one way, the other way, or equal.
pub proof fn lemma_lex_lt_connected(a: Seq<char>, b: Seq<char>)
    ensures
        lex_lt(a, b) || lex_lt(b, a) || a == b,
    decreases a.len(),
{
    if a.len() == 0 && b.len() == 0 {
        assert(a =~= b);
    } else if a.len() > 0 && b.len() > 0 && a[0] == b[0] {
        lemma_lex_lt_connected(a.skip(1), b.skip(1));
        if !lex_lt(a, b) && !lex_lt(b, a) {
            assert(a.skip(1) == b.skip(1));
            assert forall|i: int| 0 <= i < a.len() implies a[i] == b[i] by {
                if i > 0 {
                    assert(a[i] == a.skip(1)[i - 1]);
                    assert(b[i] == b.skip(1)[i - 1]);
                }
            }
            assert(a =~= b);
        }
    }
}

/// No sequence comes before itself.
pub proof fn lemma_lex_lt_irreflexive(a: Seq<char>)
    ensures
        !lex_lt(a, a),
    decreases a.len(),
{
    if a.len() > 0 {
        lemma_lex_lt_irreflexive(a.skip(1));
    }
}

/// Strict lexicographic order is transitive.
pub proof fn lemma_lex_lt_transitive(a: Seq<char>, b: Seq<char>, c: Seq<char>)
    ensures
        lex_lt(a, b) && lex_lt(b, c) ==> lex_lt(a, c),
    decreases a.len(),
{
    if a.len() > 0 && b.len() > 0 && c.len() > 0 {
        lemma_lex_lt_transitive(a.skip(1), b.skip(1), c.skip(1));
    }
}

/// Compare two strings in strict lexicographic order of their characters.
pub fn str_lt(a: &str, b: &str) -> (r: bool)
    ensures
        r == lex_lt(a@, b@),
{
    let la = a.unicode_len();
    let lb = b.unicode_len();
    let mut i: usize = 0;
    assert(a@.skip(0) =~= a@);
    assert(b@.skip(0) =~= b@);
    while i < la && i < lb && a.get_char(i) == b.get_char(i)
        invariant
            i <= la,
            i <= lb,
            la == a@.len(),
            lb == b@.len(),
            lex_lt(a@, b@) == lex_lt(a@.skip(i as int), b@.skip(i as int)),
        decreases la - i,
    {
        assert(a@.skip(i as int).skip(1) =~= a@.skip(i as int + 1));
        assert(b@.skip(i as int).skip(1) =~= b@.skip(i as int + 1));
        i = i + 1;
    }
    if i < la && i < lb {
        a.get_char(i) < b.get_char(i)
    } else {
        la < lb
    }
}

/// Whether two strings hold the same characters.
pub fn str_eq(a: &str, b: &str) -> (r: bool)
    ensures
        r == (a@ == b@),
{
    let la = a.unicode_len();
    let lb = b.unicode_len();
    if la != lb {
        return false;
    }
    let mut i: usize = 0;
    while i < la
        invariant
            i <= la,
            la == a@.len(),
            la == b@.len(),
            forall|k: int| 0 <= k < i ==> a@[k] == b@[k],
        decreases la - i,
    {
        if a.get_char(i) != b.get_char(i) {
            return false;
        }
        i = i + 1;
    }
    assert(a@ =~= b@);
    true
}

/// Whether some string of `v` holds the characters `x`.
pub fn contains_str(v: &Vec<String>, x: &str) -> (r: bool)
    ensures
        r == views_of(v@).contains(x@),
{
    let n = v.len();
    let mut i: usize = 0;
    while i < n
        invariant
            i <= n,
            n == v@.len(),
            forall|k: int| 0 <= k < i ==> v@[k]@ != x@,
        decreases n - i,
    {
        if str_eq(v[i].as_str(), x) {
            assert(views_of(v@)[i as int] == x@);
            return true;
        }
        i = i + 1;
    }
    assert forall|k: int| 0 <= k < views_of(v@).len() implies views_of(v@)[k] != x@ by {
        assert(views_of(v@)[k] == v@[k]@);
    }
    false
}

/// A character folded to lower case, for the ASCII letters; any other
/// character stands as it is.
pub open spec fn to_lower(c: char) -> char {
    if 'A' <= c && c <= 'Z' {
        ((c as u8) + 32) as char
    } else {
        c
    }
}

/// A sequence of characters folded to lower case.
pub open spec fn lower_seq(s: Seq<char>) -> Seq<char> {
    s.map_values(|c: char| to_lower(c))
}

/// Whether `needle` occurs in `hay` when both are compared with ASCII
/// case folded away.
pub open spec fn ci_contains(hay: Seq<char>, needle: Seq<char>) -> bool {
    exists|i: int|
        0 <= i && i + needle.len() <= hay.len() && lower_seq(
            #[trigger] hay.subrange(i, i + needle.len()),
        ) == lower_seq(needle)
}

/// Fold one character to lower case.
pub fn to_lower_char(c: char) -> (r: char)
    ensures
        r == to_lower(c),
{
    if 'A' <= c && c <= 'Z' {
        ((c as u8) + 32) as char
    } else {
        c
    }
}

/// Decide whether `needle` occurs in `hay`, ASCII case aside.
pub fn ci_contains_exec(hay: &str, needle: &str) -> (r: bool)
    ensures
        r == ci_contains(hay@, needle@),
{
    let hl = hay.unicode_len();
    let nl = needle.unicode_len();
    if nl > hl {
        assert(!ci_contains(hay@, needle@));
        return false;
    }
    if nl == 0 {
        assert(lower_seq(hay@.subrange(0, 0 + needle@.len() as int)) =~= lower_seq(needle@));
        return true;
    }
    let bound = hl - nl;
    let mut i: usize = 0;
    while i <= bound
        invariant
            i <= bound + 1,
            bound == hl - nl,
            1 <= nl <= hl,
            hl == hay@.len(),
            nl == needle@.len(),
            forall|p: int|
                0 <= p < i ==> lower_seq(#[trigger] hay@.subrange(p, p + nl)) != lower_seq(
                    needle@,
                ),
        decreases bound + 1 - i,
    {
        let mut j: usize = 0;
        while j < nl && to_lower_char(hay.get_char(i + j)) == to_lower_char(needle.get_char(j))
            invariant
                j <= nl,
                i + nl <= hl,
                hl == hay@.len(),
                nl == needle@.len(),
                forall|k: int| 0 <= k < j ==> to_lower(hay@[i + k]) == to_lower(needle@[k]),
            decreases nl - j,
        {
            j = j + 1;
        }
        if j == nl {
            proof {
                let sub = hay@.subrange(i as int, i + nl);
                assert forall|k: int| 0 <= k < nl implies lower_seq(sub)[k] == lower_seq(
                    needle@,
                )[k] by {
                    assert(sub[k] == hay@[i + k]);
                }
                assert(lower_seq(sub) =~= lower_seq(needle@));
            }
            return true;
        }
        proof {
            let sub = hay@.subrange(i as int, i + nl);
            assert(lower_seq(sub)[j as int] == to_lower(sub[j as int]));
            assert(sub[j as int] == hay@[i + j]);
            assert(lower_seq(needle@)[j as int] == to_lower(needle@[j as int]));
        }
        i = i + 1;
    }
    proof {
        if ci_contains(hay@, needle@) {
            let p = choose|p: int|
                0 <= p && p + needle@.len() <= hay@.len() && lower_seq(
                    #[trigger] hay@.subrange(p, p + needle@.len()),
                ) == lower_seq(needle@);
            assert(p < i);
        }
    }
    false
}

/// Copy a vector of strings, character for character.
pub fn copy_strings(v: &Vec<String>) -> (r: Vec<String>)
    ensures
        views_of(r@) == views_of(v@),
{
    let n = v.len();
    let mut r: Vec<String> = Vec::new();
    let mut i: usize = 0;
    while i < n
        invariant
            i <= n,
            n == v@.len(),
            r@.len() == i,
            forall|k: int| 0 <= k < i ==> r@[k]@ == v@[k]@,
        decreases n - i,
    {
        r.push(v[i].clone());
        i = i + 1;
    }
    assert(views_of(r@) =~= views_of(v@));
    r
}

} // verus!
