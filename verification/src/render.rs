//! Rendering the aggregate report as text: directories in ascending
//! key order (the order the report stores), categories in the fixed
//! order table, listing, graph, other, one `category: count` line per
//! non-zero count, and a blank line after each directory.

use vstd::prelude::*;

use crate::report::DirList;
use crate::report::Histogram;

verus! {

/// The decimal digit characters in value order.
pub open spec fn digit_char(d: int) -> char {
    seq!['0', '1', '2', '3', '4', '5', '6', '7', '8', '9'][d]
}

/// The decimal rendering of a number, most significant digit first.
pub open spec fn dec_str(n: nat) -> Seq<char>
    decreases n,
{
    if n < 10 {
        seq![digit_char(n as int)]
    } else {
        dec_str(n / 10) + seq![digit_char((n % 10) as int)]
    }
}

fn digit_str(d: usize) -> (r: &'static str)
    requires
        d < 10,
    ensures
        r@ == seq![digit_char(d as int)],
{
    proof {
        reveal_strlit("0");
        reveal_strlit("1");
        reveal_strlit("2");
        reveal_strlit("3");
        reveal_strlit("4");
        reveal_strlit("5");
        reveal_strlit("6");
        reveal_strlit("7");
        reveal_strlit("8");
        reveal_strlit("9");
    }
    match d {
        0 => "0",
        1 => "1",
        2 => "2",
        3 => "3",
        4 => "4",
        5 => "5",
        6 => "6",
        7 => "7",
        8 => "8",
        _ => {
            assert(d == 9);
            "9"
        },
    }
}

/// Render a count in decimal.
pub fn usize_to_string(n: usize) -> (s: String)
    ensures
        s@ == dec_str(n as nat),
    decreases n,
{
    if n < 10 {
        digit_str(n).to_owned()
    } else {
        let mut s = usize_to_string(n / 10);
        s.append(digit_str(n % 10));
        s
    }
}

/// The lines rendered for one histogram: the categories in their fixed
/// priority order, zero counts left out.
pub open spec fn hist_lines(h: Histogram) -> Seq<char> {
    (if h.table > 0 {
        "table: "@ + dec_str(h.table as nat) + "\n"@
    } else {
        Seq::<char>::empty()
    }) + (if h.listing > 0 {
        "listing: "@ + dec_str(h.listing as nat) + "\n"@
    } else {
        Seq::<char>::empty()
    }) + (if h.graph > 0 {
        "graph: "@ + dec_str(h.graph as nat) + "\n"@
    } else {
        Seq::<char>::empty()
    }) + (if h.other > 0 {
        "other: "@ + dec_str(h.other as nat) + "\n"@
    } else {
        Seq::<char>::empty()
    })
}

/// The block rendered for one directory: its key line, its histogram
/// lines, and a blank line.
pub open spec fn row_block(key: Seq<char>, h: Histogram) -> Seq<char> {
    key + "\n"@ + hist_lines(h) + "\n"@
}

/// The whole rendering: each row's block, in row order.
pub open spec fn render_spec(rows: Seq<(Seq<char>, Histogram)>) -> Seq<char>
    decreases rows.len(),
{
    if rows.len() == 0 {
        Seq::empty()
    } else {
        render_spec(rows.drop_last()) + row_block(rows.last().0, rows.last().1)
    }
}

#[verifier::rlimit(60)]
fn append_hist(out: &mut String, h: Histogram)
    ensures
        final(out)@ == old(out)@ + hist_lines(h),
{
    let ghost base = out@;
    let ghost tp = if h.table > 0 {
        "table: "@ + dec_str(h.table as nat) + "\n"@
    } else {
        Seq::<char>::empty()
    };
    let ghost lp = if h.listing > 0 {
        "listing: "@ + dec_str(h.listing as nat) + "\n"@
    } else {
        Seq::<char>::empty()
    };
    let ghost gp = if h.graph > 0 {
        "graph: "@ + dec_str(h.graph as nat) + "\n"@
    } else {
        Seq::<char>::empty()
    };
    let ghost op = if h.other > 0 {
        "other: "@ + dec_str(h.other as nat) + "\n"@
    } else {
        Seq::<char>::empty()
    };
    if h.table > 0 {
        out.append("table: ");
        let n = usize_to_string(h.table);
        out.append(n.as_str());
        out.append("\n");
    }
    assert(out@ =~= base + tp);
    if h.listing > 0 {
        out.append("listing: ");
        let n = usize_to_string(h.listing);
        out.append(n.as_str());
        out.append("\n");
    }
    assert(out@ =~= base + tp + lp);
    if h.graph > 0 {
        out.append("graph: ");
        let n = usize_to_string(h.graph);
        out.append(n.as_str());
        out.append("\n");
    }
    assert(out@ =~= base + tp + lp + gp);
    if h.other > 0 {
        out.append("other: ");
        let n = usize_to_string(h.other);
        out.append(n.as_str());
        out.append("\n");
    }
    assert(out@ =~= base + tp + lp + gp + op);
    assert(out@ =~= base + hist_lines(h));
}

/// Rendering is determined by the report's mapping alone: two
/// well-formed reports that record the same histograms under the same
/// keys render to the same text, whatever order their directories were
/// discovered and inserted in.
pub proof fn lemma_render_determined(r1: DirList, r2: DirList)
    requires
        r1.wf(),
        r2.wf(),
        r1.as_map() == r2.as_map(),
    ensures
        render_spec(r1.rows()) == render_spec(r2.rows()),
{
    crate::report::lemma_report_determined(r1, r2);
}

/// Render the report: directory keys in ascending order, categories in
/// the fixed order table, listing, graph, other, non-zero counts only,
/// directories separated by a blank line.
pub fn render(report: &DirList) -> (out: String)
    ensures
        out@ == render_spec(report.rows()),
{
    let n = report.len();
    let mut out = String::new();
    let mut i: usize = 0;
    assert(report.rows().take(0) =~= Seq::<(Seq<char>, Histogram)>::empty());
    while i < n
        invariant
            i <= n,
            n == report.rows().len(),
            out@ == render_spec(report.rows().take(i as int)),
        decreases n - i,
    {
        let ghost prefix = report.rows().take(i as int + 1);
        assert(prefix.drop_last() =~= report.rows().take(i as int));
        assert(prefix.last() == report.rows()[i as int]);
        let key = report.key_at(i);
        let h = report.hist_at(i);
        out.append(key.as_str());
        out.append("\n");
        append_hist(&mut out, h);
        out.append("\n");
        assert(out@ =~= render_spec(report.rows().take(i as int)) + row_block(
            report.rows()[i as int].0,
            h,
        ));
        i = i + 1;
    }
    assert(report.rows().take(n as int) =~= report.rows());
    out
}

} // verus!
