//! The aggregated report: a histogram of category counts per directory,
//! and the mapping from reporting key to histogram, kept sorted by key
//! so that rendering is deterministic.

use vstd::prelude::*;

use crate::classify::Category;
use crate::strings::lex_lt;
use crate::strings::lemma_lex_lt_connected;
use crate::strings::lemma_lex_lt_irreflexive;
use crate::strings::lemma_lex_lt_transitive;
use crate::strings::str_eq;
use crate::strings::str_lt;

verus! {

/// Category counts for one directory's surviving entries.
#[derive(Clone, Copy, Debug, PartialEq, Eq, Structural)]
pub struct Histogram {
    pub table: usize,
    pub listing: usize,
    pub graph: usize,
    pub other: usize,
}

impl Histogram {
    /// The count recorded for one category.
    pub open spec fn count(self, c: Category) -> int {
        match c {
            Category::Table => self.table as int,
            Category::Listing => self.listing as int,
            Category::Graph => self.graph as int,
            Category::Other => self.other as int,
        }
    }

    /// The all-zero histogram.
    pub fn zero() -> (r: Histogram)
        ensures
            forall|c: Category| r.count(c) == 0,
    {
        Histogram { table: 0, listing: 0, graph: 0, other: 0 }
    }

    /// The histogram with one more entry counted under `c`.
    pub fn bump(self, c: Category) -> (r: Histogram)
        requires
            self.count(c) < usize::MAX,
        ensures
            r.count(c) == self.count(c) + 1,
            forall|d: Category| d != c ==> r.count(d) == self.count(d),
    {
        match c {
            Category::Table => Histogram { table: self.table + 1, ..self },
            Category::Listing => Histogram { listing: self.listing + 1, ..self },
            Category::Graph => Histogram { graph: self.graph + 1, ..self },
            Category::Other => Histogram { other: self.other + 1, ..self },
        }
    }
}

/// The mapping a row sequence stands for, read left to right: a later
/// row with the same key would overwrite an earlier one.
pub open spec fn map_of(rows: Seq<(Seq<char>, Histogram)>) -> Map<Seq<char>, Histogram>
    decreases rows.len(),
{
    if rows.len() == 0 {
        Map::empty()
    } else {
        map_of(rows.drop_last()).insert(rows.last().0, rows.last().1)
    }
}

/// A key is in the mapping exactly when some row carries it.
pub proof fn lemma_map_of_dom(rows: Seq<(Seq<char>, Histogram)>)
    ensures
        forall|k: Seq<char>|
            map_of(rows).dom().contains(k) <==> exists|i: int|
                0 <= i < rows.len() && (#[trigger] rows[i]).0 == k,
    decreases rows.len(),
{
    if rows.len() > 0 {
        lemma_map_of_dom(rows.drop_last());
        assert forall|k: Seq<char>| map_of(rows).dom().contains(k) implies exists|i: int|
            0 <= i < rows.len() && (#[trigger] rows[i]).0 == k by {
            if k == rows.last().0 {
                assert(rows[rows.len() - 1].0 == k);
            } else {
                assert(map_of(rows.drop_last()).dom().contains(k));
                let i = choose|i: int|
                    0 <= i < rows.drop_last().len() && (#[trigger] rows.drop_last()[i]).0 == k;
                assert(rows.drop_last()[i] == rows[i]);
                assert(rows[i].0 == k);
            }
        }
        assert forall|k: Seq<char>|
            (exists|i: int| 0 <= i < rows.len() && (#[trigger] rows[i]).0 == k) implies map_of(
            rows,
        ).dom().contains(k) by {
            let i = choose|i: int| 0 <= i < rows.len() && (#[trigger] rows[i]).0 == k;
            if i < rows.len() - 1 {
                assert(rows.drop_last()[i].0 == k);
                assert(map_of(rows.drop_last()).dom().contains(k));
            } else {
                assert(rows.last().0 == k);
            }
        }
    }
}

proof fn lemma_map_of_insert_mid(
    a: Seq<(Seq<char>, Histogram)>,
    b: Seq<(Seq<char>, Histogram)>,
    k: Seq<char>,
    h: Histogram,
)
    requires
        forall|j: int| 0 <= j < b.len() ==> (#[trigger] b[j]).0 != k,
    ensures
        map_of(a + seq![(k, h)] + b) == map_of(a + b).insert(k, h),
    decreases b.len(),
{
    if b.len() == 0 {
        assert(a + seq![(k, h)] + b =~= a + seq![(k, h)]);
        assert(a + b =~= a);
        assert((a + seq![(k, h)]).drop_last() =~= a);
        assert((a + seq![(k, h)]).last() == (k, h));
    } else {
        let b2 = b.drop_last();
        let q = b.last();
        assert(forall|j: int| 0 <= j < b2.len() ==> b2[j] == b[j]);
        lemma_map_of_insert_mid(a, b2, k, h);
        assert((a + seq![(k, h)] + b).drop_last() =~= a + seq![(k, h)] + b2);
        assert((a + seq![(k, h)] + b).last() == q);
        assert((a + b).drop_last() =~= a + b2);
        assert((a + b).last() == q);
        assert(q.0 != k);
        assert(map_of(a + b2).insert(k, h).insert(q.0, q.1) =~= map_of(a + b2).insert(
            q.0,
            q.1,
        ).insert(k, h));
    }
}

proof fn lemma_map_of_replace_mid(
    a: Seq<(Seq<char>, Histogram)>,
    b: Seq<(Seq<char>, Histogram)>,
    k: Seq<char>,
    h0: Histogram,
    h: Histogram,
)
    requires
        forall|j: int| 0 <= j < b.len() ==> (#[trigger] b[j]).0 != k,
    ensures
        map_of(a + seq![(k, h)] + b) == map_of(a + seq![(k, h0)] + b).insert(k, h),
    decreases b.len(),
{
    if b.len() == 0 {
        assert(a + seq![(k, h)] + b =~= a + seq![(k, h)]);
        assert(a + seq![(k, h0)] + b =~= a + seq![(k, h0)]);
        assert((a + seq![(k, h)]).drop_last() =~= a);
        assert((a + seq![(k, h0)]).drop_last() =~= a);
        assert(map_of(a).insert(k, h0).insert(k, h) =~= map_of(a).insert(k, h));
    } else {
        let b2 = b.drop_last();
        let q = b.last();
        assert(forall|j: int| 0 <= j < b2.len() ==> b2[j] == b[j]);
        lemma_map_of_replace_mid(a, b2, k, h0, h);
        assert((a + seq![(k, h)] + b).drop_last() =~= a + seq![(k, h)] + b2);
        assert((a + seq![(k, h0)] + b).drop_last() =~= a + seq![(k, h0)] + b2);
        assert(q.0 != k);
        assert(map_of(a + seq![(k, h0)] + b2).insert(k, h).insert(q.0, q.1) =~= map_of(
            a + seq![(k, h0)] + b2,
        ).insert(q.0, q.1).insert(k, h));
    }
}

/// The aggregate report: one histogram per reporting key, the rows kept
/// in strictly ascending key order.
#[derive(Debug)]
pub struct DirList {
    items: Vec<(String, Histogram)>,
}

impl DirList {
    /// The rows as the report's mathematical content: key characters
    /// and histogram, in storage order.
    pub closed spec fn rows(self) -> Seq<(Seq<char>, Histogram)> {
        self.items@.map_values(|p: (String, Histogram)| (p.0@, p.1))
    }

    /// Keys are strictly ascending: sorted for rendering, and no key
    /// twice.
    pub open spec fn wf(self) -> bool {
        forall|i: int, j: int|
            0 <= i < j < self.rows().len() ==> lex_lt(
                (#[trigger] self.rows()[i]).0,
                (#[trigger] self.rows()[j]).0,
            )
    }

    /// The mapping from reporting key to histogram.
    pub open spec fn as_map(self) -> Map<Seq<char>, Histogram> {
        map_of(self.rows())
    }

    /// The empty report.
    pub fn new() -> (r: DirList)
        ensures
            r.wf(),
            r.rows() == Seq::<(Seq<char>, Histogram)>::empty(),
            r.as_map() == Map::<Seq<char>, Histogram>::empty(),
    {
        let r = DirList { items: Vec::new() };
        assert(r.rows() =~= Seq::<(Seq<char>, Histogram)>::empty());
        r
    }

    /// How many directories the report holds.
    pub fn len(&self) -> (n: usize)
        ensures
            n == self.rows().len(),
    {
        self.items.len()
    }

    /// The key of the row at `i`.
    pub fn key_at(&self, i: usize) -> (k: &String)
        requires
            i < self.rows().len(),
        ensures
            k@ == self.rows()[i as int].0,
    {
        &self.items[i].0
    }

    /// The histogram of the row at `i`.
    pub fn hist_at(&self, i: usize) -> (h: Histogram)
        requires
            i < self.rows().len(),
        ensures
            h == self.rows()[i as int].1,
    {
        self.items[i].1
    }

    /// Record a histogram under a key. A key already present is
    /// overwritten: the last insertion wins.
    pub fn insert(&mut self, key: String, h: Histogram)
        requires
            old(self).wf(),
        ensures
            final(self).wf(),
            final(self).as_map() == old(self).as_map().insert(key@, h),
    {
        let ghost rows0 = self.rows();
        let n = self.items.len();
        let mut i: usize = 0;
        while i < n && str_lt(self.items[i].0.as_str(), key.as_str())
            invariant
                i <= n,
                n == self.items@.len(),
                *self == *old(self),
                forall|j: int| 0 <= j < i ==> lex_lt((#[trigger] self.rows()[j]).0, key@),
            decreases n - i,
        {
            i = i + 1;
        }
        let ghost a = rows0.take(i as int);
        if i < n && str_eq(self.items[i].0.as_str(), key.as_str()) {
            let ghost h0 = rows0[i as int].1;
            let ghost b = rows0.skip(i as int + 1);
            self.items.remove(i);
            self.items.insert(i, (key, h));
            proof {
                assert(self.rows() =~= a + seq![(key@, h)] + b);
                assert(rows0 =~= a + seq![(key@, h0)] + b);
                assert forall|j: int| 0 <= j < b.len() implies (#[trigger] b[j]).0 != key@ by {
                    assert(b[j] == rows0[i as int + 1 + j]);
                    assert(lex_lt(rows0[i as int].0, rows0[i as int + 1 + j].0));
                    lemma_lex_lt_irreflexive(key@);
                }
                lemma_map_of_replace_mid(a, b, key@, h0, h);
                assert forall|p: int, q: int| 0 <= p < q < self.rows().len() implies lex_lt(
                    (#[trigger] self.rows()[p]).0,
                    (#[trigger] self.rows()[q]).0,
                ) by {
                    assert(rows0[p].0 == self.rows()[p].0);
                    assert(rows0[q].0 == self.rows()[q].0);
                }
            }
        } else {
            let ghost b = rows0.skip(i as int);
            proof {
                if i < n {
                    lemma_lex_lt_connected(rows0[i as int].0, key@);
                }
                assert forall|j: int| 0 <= j < b.len() implies lex_lt(
                    key@,
                    (#[trigger] b[j]).0,
                ) by {
                    assert(b[j] == rows0[i as int + j]);
                    if j > 0 {
                        assert(lex_lt(rows0[i as int].0, rows0[i as int + j].0));
                        lemma_lex_lt_transitive(key@, rows0[i as int].0, rows0[i as int + j].0);
                    }
                }
            }
            self.items.insert(i, (key, h));
            proof {
                assert(self.rows() =~= a + seq![(key@, h)] + b);
                assert(rows0 =~= a + b);
                assert forall|j: int| 0 <= j < b.len() implies (#[trigger] b[j]).0 != key@ by {
                    lemma_lex_lt_irreflexive(key@);
                }
                lemma_map_of_insert_mid(a, b, key@, h);
                assert forall|p: int, q: int| 0 <= p < q < self.rows().len() implies lex_lt(
                    (#[trigger] self.rows()[p]).0,
                    (#[trigger] self.rows()[q]).0,
                ) by {
                    let rows1 = self.rows();
                    if q < i {
                        assert(rows0[p].0 == rows1[p].0);
                        assert(rows0[q].0 == rows1[q].0);
                    } else if q == i {
                        assert(rows0[p].0 == rows1[p].0);
                        assert(lex_lt(rows0[p].0, key@));
                    } else if p < i {
                        assert(rows0[p].0 == rows1[p].0);
                        assert(rows0[q - 1].0 == rows1[q].0);
                        assert(b[q - 1 - i] == rows0[q - 1]);
                    } else if p == i {
                        assert(rows0[q - 1].0 == rows1[q].0);
                        assert(b[q - 1 - i] == rows0[q - 1]);
                    } else {
                        assert(rows0[p - 1].0 == rows1[p].0);
                        assert(rows0[q - 1].0 == rows1[q].0);
                    }
                }
            }
        }
    }
}

/// A well-formed report is determined by its mapping: two reports that
/// record the same histograms under the same keys hold identical rows,
/// whatever order their directories were discovered in.
pub proof fn lemma_report_determined(r1: DirList, r2: DirList)
    requires
        r1.wf(),
        r2.wf(),
        r1.as_map() == r2.as_map(),
    ensures
        r1.rows() == r2.rows(),
{
    lemma_rows_determined(r1.rows(), r2.rows());
}

proof fn lemma_rows_determined(x: Seq<(Seq<char>, Histogram)>, y: Seq<(Seq<char>, Histogram)>)
    requires
        forall|i: int, j: int|
            0 <= i < j < x.len() ==> lex_lt((#[trigger] x[i]).0, (#[trigger] x[j]).0),
        forall|i: int, j: int|
            0 <= i < j < y.len() ==> lex_lt((#[trigger] y[i]).0, (#[trigger] y[j]).0),
        map_of(x) == map_of(y),
    ensures
        x == y,
    decreases x.len() + y.len(),
{
    lemma_map_of_dom(x);
    lemma_map_of_dom(y);
    if x.len() == 0 {
        if y.len() > 0 {
            assert(y[y.len() - 1].0 == y.last().0);
            assert(map_of(y).dom().contains(y.last().0));
        }
        assert(x =~= y);
    } else if y.len() == 0 {
        assert(x[x.len() - 1].0 == x.last().0);
        assert(map_of(x).dom().contains(x.last().0));
    } else {
        let kx = x.last().0;
        let ky = y.last().0;
        assert(x[x.len() - 1].0 == kx);
        assert(y[y.len() - 1].0 == ky);
        assert(map_of(y).dom().contains(kx));
        let iy = choose|i: int| 0 <= i < y.len() && (#[trigger] y[i]).0 == kx;
        assert(map_of(x).dom().contains(ky));
        let ix = choose|i: int| 0 <= i < x.len() && (#[trigger] x[i]).0 == ky;
        lemma_lex_lt_irreflexive(kx);
        lemma_lex_lt_irreflexive(ky);
        if iy < y.len() - 1 {
            assert(lex_lt(kx, ky));
        }
        if ix < x.len() - 1 {
            assert(lex_lt(ky, kx));
        }
        if kx != ky {
            lemma_lex_lt_transitive(kx, ky, kx);
        }
        assert(kx == ky);
        assert(map_of(x)[kx] == x.last().1);
        assert(map_of(y)[ky] == y.last().1);
        assert(x.last() == y.last());
        let x2 = x.drop_last();
        let y2 = y.drop_last();
        lemma_map_of_dom(x2);
        lemma_map_of_dom(y2);
        assert forall|j: int| 0 <= j < x2.len() implies (#[trigger] x2[j]).0 != kx by {
            assert(x2[j] == x[j]);
            assert(lex_lt(x[j].0, kx));
            lemma_lex_lt_irreflexive(kx);
        }
        assert forall|j: int| 0 <= j < y2.len() implies (#[trigger] y2[j]).0 != ky by {
            assert(y2[j] == y[j]);
            assert(lex_lt(y[j].0, ky));
            lemma_lex_lt_irreflexive(ky);
        }
        assert(!map_of(x2).dom().contains(kx));
        assert(!map_of(y2).dom().contains(ky));
        assert(map_of(x2) =~= map_of(x).remove(kx));
        assert(map_of(y2) =~= map_of(y).remove(ky));
        assert(forall|i: int, j: int|
            0 <= i < j < x2.len() ==> lex_lt((#[trigger] x2[i]).0, (#[trigger] x2[j]).0));
        assert(forall|i: int, j: int|
            0 <= i < j < y2.len() ==> lex_lt((#[trigger] y2[i]).0, (#[trigger] y2[j]).0));
        lemma_rows_determined(x2, y2);
        assert forall|i: int| 0 <= i < x.len() implies x[i] == y[i] by {
            if i < x.len() - 1 {
                assert(x2[i] == x[i]);
                assert(y2[i] == y[i]);
                assert(x2[i] == y2[i]);
            }
        }
        assert(x =~= y);
    }
}

} // verus!
