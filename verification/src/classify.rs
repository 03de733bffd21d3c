//! Row classification: partitioning a table's rows into header, footer
//! and data zones, and measuring the column count.

use crate::dom::{anc, in_tfoot, Doc};
use crate::text::{clean_text, eq_ci, str_eq_ci};
use vstd::prelude::*;

verus! {

/// The indices below `n`, in increasing order, of elements with the
/// given tag that are descendants of `a`.
pub open spec fn desc_tag_upto(doc: Doc, a: int, tag: Seq<char>, n: int) -> Seq<int>
    decreases n,
{
    if n <= 0 {
        Seq::empty()
    } else if 0 <= n - 1 < doc.len() && anc(doc, n - 1, a) && eq_ci(doc.at(n - 1).tag@, tag) {
        desc_tag_upto(doc, a, tag, n - 1).push(n - 1)
    } else {
        desc_tag_upto(doc, a, tag, n - 1)
    }
}

/// All descendants of `a` with the given tag, in document order.
pub open spec fn desc_tag(doc: Doc, a: int, tag: Seq<char>) -> Seq<int> {
    desc_tag_upto(doc, a, tag, doc.len())
}

/// The row indices of a table: its `tr` descendants in document order.
pub open spec fn table_rows(doc: Doc, t: int) -> Seq<int> {
    desc_tag(doc, t, "tr"@)
}

/// The table rows of `t`, as a vector of element indices.
pub fn rows_of_table(doc: &Doc, t: usize) -> (r: Vec<usize>)
    requires
        doc.wf(),
        t < doc.elems.len(),
    ensures
        r@.map_values(|x: usize| x as int) == table_rows(*doc, t as int),
        forall|k: int| 0 <= k < r@.len() ==> #[trigger] r@[k] < doc.elems.len(),
{
    let n = doc.elems.len();
    let mut r: Vec<usize> = Vec::new();
    let mut j: usize = 0;
    while j < n
        invariant
            doc.wf(),
            t < n == doc.elems.len(),
            j <= n,
            r@.map_values(|x: usize| x as int) == desc_tag_upto(*doc, t as int, "tr"@, j as int),
            forall|k: int| 0 <= k < r@.len() ==> #[trigger] r@[k] < doc.elems.len(),
        decreases n - j,
    {
        if str_eq_ci(doc.elems[j].tag.as_str(), "tr") && crate::dom::elem_has_ancestor(doc, j, t) {
            r.push(j);
            proof {
                assert(r@.map_values(|x: usize| x as int) =~= desc_tag_upto(
                    *doc,
                    t as int,
                    "tr"@,
                    j + 1,
                ));
            }
        }
        j += 1;
    }
    r
}

/// A row with at least one header cell: some `th` descendant.
pub open spec fn row_has_header_cell(doc: Doc, r: int) -> bool {
    exists|j: int|
        0 <= j < doc.len() && anc(doc, j, r) && eq_ci(#[trigger] doc.at(j).tag@, "th"@)
}

pub fn row_contains_header_cell(doc: &Doc, r: usize) -> (b: bool)
    requires
        doc.wf(),
        r < doc.elems.len(),
    ensures
        b == row_has_header_cell(*doc, r as int),
{
    let n = doc.elems.len();
    let mut j: usize = 0;
    while j < n
        invariant
            doc.wf(),
            r < n == doc.elems.len(),
            j <= n,
            forall|k: int|
                0 <= k < j ==> !(anc(*doc, k, r as int) && eq_ci(
                    #[trigger] doc.at(k).tag@,
                    "th"@,
                )),
        decreases n - j,
    {
        if str_eq_ci(doc.elems[j].tag.as_str(), "th") && crate::dom::elem_has_ancestor(doc, j, r) {
            return true;
        }
        j += 1;
    }
    false
}

/// A footer row: inside a `tfoot` element, or holding a header cell.
pub open spec fn is_footer_row(doc: Doc, r: int) -> bool {
    in_tfoot(doc, r) || row_has_header_cell(doc, r)
}

pub fn row_is_footer(doc: &Doc, r: usize) -> (b: bool)
    requires
        doc.wf(),
        r < doc.elems.len(),
    ensures
        b == is_footer_row(*doc, r as int),
{
    crate::dom::elem_in_tfoot(doc, r) || row_contains_header_cell(doc, r)
}

/// Length of the leading run of rows that hold a header cell.
pub open spec fn header_run(doc: Doc, rows: Seq<int>) -> int
    decreases rows.len(),
{
    if rows.len() == 0 {
        0
    } else if row_has_header_cell(doc, rows[0]) {
        1 + header_run(doc, rows.drop_first())
    } else {
        0
    }
}

/// Length of the trailing run of footer rows.
pub open spec fn footer_run(doc: Doc, rows: Seq<int>) -> int
    decreases rows.len(),
{
    if rows.len() == 0 {
        0
    } else if is_footer_row(doc, rows.last()) {
        1 + footer_run(doc, rows.drop_last())
    } else {
        0
    }
}

proof fn lemma_header_run_is(doc: Doc, rows: Seq<int>, h: int)
    requires
        0 <= h <= rows.len(),
        forall|i: int| 0 <= i < h ==> row_has_header_cell(doc, #[trigger] rows[i]),
        h < rows.len() ==> !row_has_header_cell(doc, rows[h]),
    ensures
        header_run(doc, rows) == h,
    decreases rows.len(),
{
    if rows.len() > 0 && h > 0 {
        lemma_header_run_is(doc, rows.drop_first(), h - 1);
        assert forall|i: int| 0 <= i < h - 1 implies row_has_header_cell(
            doc,
            #[trigger] rows.drop_first()[i],
        ) by {
            assert(rows.drop_first()[i] == rows[i + 1]);
        }
    }
}

proof fn lemma_footer_run_is(doc: Doc, rows: Seq<int>, f: int)
    requires
        0 <= f <= rows.len(),
        forall|i: int| rows.len() - f <= i < rows.len() ==> is_footer_row(doc, #[trigger] rows[i]),
        f < rows.len() ==> !is_footer_row(doc, rows[rows.len() - f - 1]),
    ensures
        footer_run(doc, rows) == f,
    decreases rows.len(),
{
    if rows.len() > 0 && f > 0 {
        lemma_footer_run_is(doc, rows.drop_last(), f - 1);
        assert forall|i: int|
            rows.drop_last().len() - (f - 1) <= i < rows.drop_last().len() implies is_footer_row(
            doc,
            #[trigger] rows.drop_last()[i],
        ) by {
            assert(rows.drop_last()[i] == rows[i]);
        }
    }
}

/// Law: when every row of a table is a footer row — as for a table
/// whose rows all sit inside a `tfoot`, whatever cells they hold — the
/// footer run covers the whole table.
pub proof fn lemma_all_footer_rows_full(doc: Doc, rows: Seq<int>)
    requires
        forall|i: int| 0 <= i < rows.len() ==> is_footer_row(doc, #[trigger] rows[i]),
    ensures
        footer_run(doc, rows) == rows.len(),
{
    lemma_footer_run_is(doc, rows, rows.len() as int);
}

/// Header detection: rows are header rows from the start for as long as
/// each holds at least one header cell.
pub fn count_header_rows(doc: &Doc, rows: &Vec<usize>) -> (h: usize)
    requires
        doc.wf(),
        forall|k: int| 0 <= k < rows@.len() ==> #[trigger] rows@[k] < doc.elems.len(),
    ensures
        h <= rows.len(),
        h == header_run(*doc, rows@.map_values(|x: usize| x as int)),
        forall|i: int| 0 <= i < h ==> row_has_header_cell(*doc, #[trigger] rows@[i] as int),
        h < rows.len() ==> !row_has_header_cell(*doc, rows@[h as int] as int),
{
    let n = rows.len();
    let mut h: usize = 0;
    while h < n && row_contains_header_cell(doc, rows[h])
        invariant
            doc.wf(),
            n == rows@.len(),
            h <= n,
            forall|k: int| 0 <= k < rows@.len() ==> #[trigger] rows@[k] < doc.elems.len(),
            forall|i: int| 0 <= i < h ==> row_has_header_cell(*doc, #[trigger] rows@[i] as int),
        decreases n - h,
    {
        h += 1;
    }
    proof {
        let m = rows@.map_values(|x: usize| x as int);
        assert forall|i: int| 0 <= i < h implies row_has_header_cell(*doc, #[trigger] m[i]) by {
            assert(rows@[i] as int == m[i]);
        }
        if h < n {
            assert(m[h as int] == rows@[h as int] as int);
        }
        lemma_header_run_is(*doc, m, h as int);
    }
    h
}

/// Footer detection: rows are footer rows from the end for as long as
/// each sits in a `tfoot` or holds a header cell.
pub fn count_footer_rows(doc: &Doc, rows: &Vec<usize>) -> (f: usize)
    requires
        doc.wf(),
        forall|k: int| 0 <= k < rows@.len() ==> #[trigger] rows@[k] < doc.elems.len(),
    ensures
        f <= rows.len(),
        f == footer_run(*doc, rows@.map_values(|x: usize| x as int)),
        forall|i: int|
            rows@.len() - f <= i < rows@.len() ==> is_footer_row(*doc, #[trigger] rows@[i] as int),
        f < rows.len() ==> !is_footer_row(*doc, rows@[rows@.len() - f - 1] as int),
{
    let n = rows.len();
    let mut f: usize = 0;
    while f < n && row_is_footer(doc, rows[n - f - 1])
        invariant
            doc.wf(),
            n == rows@.len(),
            f <= n,
            forall|k: int| 0 <= k < rows@.len() ==> #[trigger] rows@[k] < doc.elems.len(),
            forall|i: int|
                rows@.len() - f <= i < rows@.len() ==> is_footer_row(
                    *doc,
                    #[trigger] rows@[i] as int,
                ),
        decreases n - f,
    {
        f += 1;
    }
    proof {
        let m = rows@.map_values(|x: usize| x as int);
        assert forall|i: int| m.len() - f <= i < m.len() implies is_footer_row(
            *doc,
            #[trigger] m[i],
        ) by {
            assert(rows@[i] as int == m[i]);
        }
        if f < n {
            assert(m[n - f - 1] == rows@[n - f - 1] as int);
        }
        lemma_footer_run_is(*doc, m, f as int);
    }
    f
}

/// The number of data rows once header and footer rows are set aside,
/// clamped at zero for malformed tables whose runs overlap.
pub open spec fn clamped_data_count(rc: int, h: int, f: int) -> int {
    if h + f <= rc {
        rc - h - f
    } else {
        0
    }
}

pub fn compute_data_row_count(rc: usize, h: usize, f: usize) -> (d: usize)
    ensures
        d == clamped_data_count(rc as int, h as int, f as int),
{
    if h <= rc && f <= rc - h {
        rc - h - f
    } else {
        0
    }
}

/// Law: whenever the header and footer runs do not overlap, the three
/// zone counts partition the row count exactly, and the data count is
/// never negative.
pub proof fn lemma_zone_partition(rc: int, h: int, f: int)
    requires
        0 <= h,
        0 <= f,
        h + f <= rc,
    ensures
        h + f + clamped_data_count(rc, h, f) == rc,
        clamped_data_count(rc, h, f) >= 0,
{
}

/// The width of a row: its header cells plus its ordinary cells.
pub open spec fn row_width(doc: Doc, r: int) -> int {
    desc_tag(doc, r, "th"@).len() + desc_tag(doc, r, "td"@).len() as int
}

/// Count of header plus ordinary cells in one row.
pub fn width_of_row(doc: &Doc, r: usize) -> (w: usize)
    requires
        doc.wf(),
        r < doc.elems.len(),
    ensures
        w == row_width(*doc, r as int),
{
    let n = doc.elems.len();
    let mut w: usize = 0;
    let mut j: usize = 0;
    while j < n
        invariant
            doc.wf(),
            r < n == doc.elems.len(),
            j <= n,
            w <= j,
            w == desc_tag_upto(*doc, r as int, "th"@, j as int).len() + desc_tag_upto(
                *doc,
                r as int,
                "td"@,
                j as int,
            ).len(),
        decreases n - j,
    {
        let is_th = str_eq_ci(doc.elems[j].tag.as_str(), "th");
        let is_td = str_eq_ci(doc.elems[j].tag.as_str(), "td");
        proof {
            if is_th && is_td {
                reveal_strlit("th");
                reveal_strlit("td");
                assert(crate::text::lower_code("th"@[1]) != crate::text::lower_code("td"@[1]));
            }
        }
        if (is_th || is_td) && crate::dom::elem_has_ancestor(doc, j, r) {
            w += 1;
        }
        j += 1;
    }
    w
}

/// Column count: the maximum row width over all rows; zero when the
/// table has no rows.
pub fn column_count(doc: &Doc, rows: &Vec<usize>) -> (c: usize)
    requires
        doc.wf(),
        forall|k: int| 0 <= k < rows@.len() ==> #[trigger] rows@[k] < doc.elems.len(),
    ensures
        rows@.len() == 0 ==> c == 0,
        forall|i: int| 0 <= i < rows@.len() ==> row_width(*doc, #[trigger] rows@[i] as int) <= c,
        rows@.len() > 0 ==> exists|i: int|
            0 <= i < rows@.len() && c == row_width(*doc, #[trigger] rows@[i] as int),
{
    let n = rows.len();
    let mut c: usize = 0;
    let mut i: usize = 0;
    while i < n
        invariant
            doc.wf(),
            n == rows@.len(),
            i <= n,
            forall|k: int| 0 <= k < rows@.len() ==> #[trigger] rows@[k] < doc.elems.len(),
            i == 0 ==> c == 0,
            forall|k: int| 0 <= k < i ==> row_width(*doc, #[trigger] rows@[k] as int) <= c,
            i > 0 ==> exists|k: int|
                0 <= k < i && c == row_width(*doc, #[trigger] rows@[k] as int),
        decreases n - i,
    {
        let w = width_of_row(doc, rows[i]);
        if w > c || i == 0 {
            c = w;
        }
        i += 1;
    }
    c
}

/// The normalized texts of the cells with the given tag inside row `r`,
/// in document order.
pub open spec fn cell_texts(doc: Doc, r: int, tag: Seq<char>) -> Seq<Seq<char>> {
    desc_tag(doc, r, tag).map_values(|j: int| clean_text(doc.at(j).inner@))
}

/// The normalized texts of one row's cells of the given tag.
pub fn extract_cells(doc: &Doc, r: usize, tag: &str) -> (out: Vec<String>)
    requires
        doc.wf(),
        r < doc.elems.len(),
    ensures
        out.deep_view() == cell_texts(*doc, r as int, tag@),
{
    let n = doc.elems.len();
    let mut out: Vec<String> = Vec::new();
    let mut j: usize = 0;
    while j < n
        invariant
            doc.wf(),
            r < n == doc.elems.len(),
            j <= n,
            out@.len() == desc_tag_upto(*doc, r as int, tag@, j as int).len(),
            forall|k: int|
                0 <= k < out@.len() ==> #[trigger] out@[k]@ == clean_text(
                    doc.at(desc_tag_upto(*doc, r as int, tag@, j as int)[k]).inner@,
                ),
        decreases n - j,
    {
        proof {
            let prev = desc_tag_upto(*doc, r as int, tag@, j as int);
            let cur = desc_tag_upto(*doc, r as int, tag@, j + 1);
            assert forall|k: int| 0 <= k < prev.len() implies cur[k] == prev[k] by {}
        }
        if str_eq_ci(doc.elems[j].tag.as_str(), tag) && crate::dom::elem_has_ancestor(doc, j, r) {
            let cell = crate::text::clean_cell_text(doc.elems[j].inner.as_str());
            out.push(cell);
        }
        j += 1;
    }
    proof {
        assert(out.deep_view() =~= cell_texts(*doc, r as int, tag@));
    }
    out
}

} // verus!
