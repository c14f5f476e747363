//! Collapsing entries that share a stem: the same logical artifact may
//! exist in several formats, and only the first occurrence in scan
//! order survives.

use vstd::prelude::*;

use crate::entry::FileEntry;
use crate::entry::names_of;
use crate::entry::stem_spec;
use crate::strings::views_of;
use crate::strings::contains_str;

verus! {

/// Deduplication by stem with an accumulator of stems already emitted:
/// a name survives exactly when its stem has not been seen before it.
pub open spec fn dedupe_names_rec(names: Seq<Seq<char>>, seen: Set<Seq<char>>) -> Seq<Seq<char>>
    decreases names.len(),
{
    if names.len() == 0 {
        Seq::empty()
    } else if seen.contains(stem_spec(names[0])) {
        dedupe_names_rec(names.skip(1), seen)
    } else {
        seq![names[0]] + dedupe_names_rec(names.skip(1), seen.insert(stem_spec(names[0])))
    }
}

/// The names that survive deduplication, in scan order, first
/// occurrence of each stem winning.
pub open spec fn dedupe_names(names: Seq<Seq<char>>) -> Seq<Seq<char>> {
    dedupe_names_rec(names, Set::empty())
}

proof fn lemma_dedupe_rec(names: Seq<Seq<char>>, seen: Set<Seq<char>>)
    ensures
        forall|j: int|
            0 <= j < dedupe_names_rec(names, seen).len() ==> names.contains(
                #[trigger] dedupe_names_rec(names, seen)[j],
            ),
        forall|j: int|
            0 <= j < dedupe_names_rec(names, seen).len() ==> !seen.contains(
                stem_spec(#[trigger] dedupe_names_rec(names, seen)[j]),
            ),
        forall|i: int, j: int|
            0 <= i < j < dedupe_names_rec(names, seen).len() ==> stem_spec(
                dedupe_names_rec(names, seen)[i],
            ) != stem_spec(dedupe_names_rec(names, seen)[j]),
        forall|i: int|
            0 <= i < names.len() ==> seen.contains(stem_spec(#[trigger] names[i])) || exists|j: int|
                0 <= j < dedupe_names_rec(names, seen).len() && stem_spec(
                    dedupe_names_rec(names, seen)[j],
                ) == stem_spec(names[i]),
    decreases names.len(),
{
    if names.len() == 0 {
    } else {
        let rest = names.skip(1);
        assert(forall|i: int| 0 <= i < rest.len() ==> rest[i] == names[i + 1]);
        if seen.contains(stem_spec(names[0])) {
            lemma_dedupe_rec(rest, seen);
            let d = dedupe_names_rec(names, seen);
            assert(d == dedupe_names_rec(rest, seen));
            assert forall|j: int| 0 <= j < d.len() implies names.contains(#[trigger] d[j]) by {
                assert(rest.contains(d[j]));
                let k = choose|k: int| 0 <= k < rest.len() && rest[k] == d[j];
                assert(names[k + 1] == d[j]);
            }
            assert forall|i: int| 0 <= i < names.len() implies seen.contains(
                stem_spec(#[trigger] names[i]),
            ) || exists|j: int| 0 <= j < d.len() && stem_spec(d[j]) == stem_spec(names[i]) by {
                if i > 0 {
                    assert(rest[i - 1] == names[i]);
                }
            }
        } else {
            let seen2 = seen.insert(stem_spec(names[0]));
            lemma_dedupe_rec(rest, seen2);
            let d2 = dedupe_names_rec(rest, seen2);
            let d = dedupe_names_rec(names, seen);
            assert(d == seq![names[0]] + d2);
            assert(d[0] == names[0]);
            assert(forall|j: int| 1 <= j < d.len() ==> d[j] == d2[j - 1]);
            assert forall|j: int| 0 <= j < d.len() implies names.contains(#[trigger] d[j]) by {
                if j == 0 {
                    assert(names[0] == d[0]);
                } else {
                    let k = choose|k: int| 0 <= k < rest.len() && rest[k] == d2[j - 1];
                    assert(names[k + 1] == d[j]);
                }
            }
            assert forall|j: int| 0 <= j < d.len() implies !seen.contains(
                stem_spec(#[trigger] d[j]),
            ) by {
                if j > 0 {
                    assert(!seen2.contains(stem_spec(d2[j - 1])));
                }
            }
            assert forall|i: int, j: int| 0 <= i < j < d.len() implies stem_spec(d[i])
                != stem_spec(d[j]) by {
                if i == 0 {
                    assert(!seen2.contains(stem_spec(d2[j - 1])));
                    assert(seen2.contains(stem_spec(names[0])));
                } else {
                    assert(stem_spec(d2[i - 1]) != stem_spec(d2[j - 1]));
                }
            }
            assert forall|i: int| 0 <= i < names.len() implies seen.contains(
                stem_spec(#[trigger] names[i]),
            ) || exists|j: int| 0 <= j < d.len() && stem_spec(d[j]) == stem_spec(names[i]) by {
                if i == 0 {
                    assert(stem_spec(d[0]) == stem_spec(names[0]));
                } else {
                    assert(rest[i - 1] == names[i]);
                    if seen2.contains(stem_spec(names[i])) {
                        if stem_spec(names[i]) == stem_spec(names[0]) {
                            assert(stem_spec(d[0]) == stem_spec(names[i]));
                        }
                    } else {
                        let j = choose|j: int|
                            0 <= j < d2.len() && stem_spec(d2[j]) == stem_spec(names[i]);
                        assert(stem_spec(d[j + 1]) == stem_spec(names[i]));
                    }
                }
            }
        }
    }
}

/// Deduplication keeps exactly one name per stem: the survivors come
/// from the input, their stems are pairwise distinct, and every stem of
/// the input is still represented by exactly one survivor.
pub proof fn lemma_dedupe_one_per_stem(names: Seq<Seq<char>>)
    ensures
        forall|j: int|
            0 <= j < dedupe_names(names).len() ==> names.contains(#[trigger] dedupe_names(names)[j]),
        forall|i: int, j: int|
            0 <= i < j < dedupe_names(names).len() ==> stem_spec(dedupe_names(names)[i])
                != stem_spec(dedupe_names(names)[j]),
        forall|i: int|
            0 <= i < names.len() ==> exists|j: int|
                0 <= j < dedupe_names(names).len() && stem_spec(dedupe_names(names)[j]) == stem_spec(
                    #[trigger] names[i],
                ),
{
    lemma_dedupe_rec(names, Set::empty());
}

/// Keep the first entry of each stem, in scan order. Whichever format
/// the listing yields first is the one that survives.
pub fn dedupe(entries: &Vec<FileEntry>) -> (r: Vec<FileEntry>)
    requires
        forall|i: int| 0 <= i < entries@.len() ==> (#[trigger] entries@[i]).wf(),
    ensures
        forall|i: int| 0 <= i < r@.len() ==> (#[trigger] r@[i]).wf(),
        names_of(r@) == dedupe_names(names_of(entries@)),
{
    let n = entries.len();
    let all = Ghost(names_of(entries@));
    let mut r: Vec<FileEntry> = Vec::new();
    let mut seen: Vec<String> = Vec::new();
    let mut i: usize = 0;
    assert(all@.skip(0) =~= all@);
    assert(names_of(r@) =~= Seq::<Seq<char>>::empty());
    assert(Set::new(|x: Seq<char>| views_of(seen@).contains(x)) =~= Set::<Seq<char>>::empty());
    assert(Seq::<Seq<char>>::empty() + dedupe_names_rec(all@, Set::<Seq<char>>::empty()) =~= dedupe_names_rec(
        all@,
        Set::<Seq<char>>::empty(),
    ));
    while i < n
        invariant
            i <= n,
            n == entries@.len(),
            all@ == names_of(entries@),
            forall|k: int| 0 <= k < entries@.len() ==> (#[trigger] entries@[k]).wf(),
            forall|k: int| 0 <= k < r@.len() ==> (#[trigger] r@[k]).wf(),
            dedupe_names(all@) == names_of(r@) + dedupe_names_rec(
                all@.skip(i as int),
                Set::new(|x: Seq<char>| views_of(seen@).contains(x)),
            ),
        decreases n - i,
    {
        let ghost pending = all@.skip(i as int);
        let ghost seen_set = Set::new(|x: Seq<char>| views_of(seen@).contains(x));
        assert(pending[0] == all@[i as int]);
        assert(pending.skip(1) =~= all@.skip(i as int + 1));
        let e = &entries[i];
        let is_dup = contains_str(&seen, e.stem.as_str());
        assert(stem_spec(pending[0]) == e.stem@);
        if !is_dup {
            let ghost seen_old = seen@;
            let ghost r_old = r@;
            let stem_copy = e.stem.clone();
            seen.push(stem_copy);
            r.push(e.clone());
            proof {
                assert(views_of(seen@) =~= views_of(seen_old).push(e.stem@));
                let s_new = Set::new(|x: Seq<char>| views_of(seen@).contains(x));
                assert forall|x: Seq<char>| s_new.contains(x) implies seen_set.insert(
                    stem_spec(pending[0]),
                ).contains(x) by {
                    let k = choose|k: int|
                        0 <= k < views_of(seen@).len() && views_of(seen@)[k] == x;
                    if k < views_of(seen_old).len() {
                        assert(views_of(seen_old)[k] == x);
                    } else {
                        assert(x == e.stem@);
                    }
                }
                assert forall|x: Seq<char>|
                    seen_set.insert(stem_spec(pending[0])).contains(x) implies s_new.contains(
                    x,
                ) by {
                    if seen_set.contains(x) {
                        let k = choose|k: int|
                            0 <= k < views_of(seen_old).len() && views_of(seen_old)[k] == x;
                        assert(views_of(seen@)[k] == x);
                    } else {
                        assert(views_of(seen@)[views_of(seen@).len() - 1] == x);
                    }
                }
                assert(s_new =~= seen_set.insert(stem_spec(pending[0])));
                assert(names_of(r@) =~= names_of(r_old).push(e.name@));
                assert(names_of(r_old).push(e.name@) =~= names_of(r_old) + seq![pending[0]]);
                assert((names_of(r_old) + seq![pending[0]]) + dedupe_names_rec(
                    pending.skip(1),
                    seen_set.insert(stem_spec(pending[0])),
                ) =~= names_of(r_old) + (seq![pending[0]] + dedupe_names_rec(
                    pending.skip(1),
                    seen_set.insert(stem_spec(pending[0])),
                )));
            }
        }
        i = i + 1;
    }
    assert(all@.skip(n as int) =~= Seq::<Seq<char>>::empty());
    assert(names_of(r@) + Seq::<Seq<char>>::empty() =~= names_of(r@));
    r
}

} // verus!
